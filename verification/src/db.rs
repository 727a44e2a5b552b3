//! The logic of the database layer that does not touch the database: the SQL
//! text and parameters of the queries, search snippets, and the joining and
//! aggregation of the rows that come back.

use vstd::prelude::*;

use crate::models::{Message, MessageWithParts, Part, PartData};
use crate::split::{trim, trim_seq};

use crate::text::{
    chars_of, contains_seq, dec_nat, find_from, first_occurrence_from, join_seq, lowercase, occurs_at,
    lemma_strs_push, push_chars_range, push_dec_usize, push_joined, push_replaced, replace_seq, str_eq,
    strs, to_lowercase,
};

verus! {

// ───────────────────────── search snippets ─────────────────────────

/// The first index at or after `from` where `pat` occurs in `s`, or -1.
pub open spec fn index_from(s: Seq<char>, pat: Seq<char>, from: int) -> int
    decreases s.len() + 1 - from,
{
    if from < 0 || from > s.len() {
        -1
    } else if occurs_at(s, pat, from) {
        from
    } else {
        index_from(s, pat, from + 1)
    }
}

proof fn lemma_index_from(s: Seq<char>, pat: Seq<char>, from: int, r: Option<int>)
    requires
        0 <= from,
        first_occurrence_from(s, pat, from, r),
    ensures
        index_from(s, pat, from) == match r {
            Some(i) => i,
            None => -1,
        },
    decreases s.len() + 1 - from,
{
    if from > s.len() {
        assert(r is None) by {
            if let Some(i) = r {
                assert(occurs_at(s, pat, i));
            }
        }
    } else if occurs_at(s, pat, from) {
        if let Some(i) = r {
            if i > from {
                assert(!occurs_at(s, pat, from));
            }
        }
    } else {
        lemma_index_from(s, pat, from + 1, r);
    }
}

/// `a - b`, or 0 when `b >= a`.
pub open spec fn minus_or_zero(a: int, b: int) -> int {
    if a > b {
        a - b
    } else {
        0
    }
}

/// The smaller of two integers.
pub open spec fn smaller(a: int, b: int) -> int {
    if a < b {
        a
    } else {
        b
    }
}

/// The snippet of `text` around position `p` of a match `qlen` characters
/// long, with `context` characters of context split before and after it
/// and `...` where text was cut; for `p < 0` (no match), the first `context`
/// characters, with `...` when there were more.
pub open spec fn snippet_at(text: Seq<char>, p: int, qlen: nat, context: nat) -> Seq<char> {
    let total = text.len() as int;
    if p >= 0 {
        let half = (context / 2) as int;
        let start = minus_or_zero(p, half);
        let end = smaller(p + qlen + half, total);
        let mid = if start < total {
            text.subrange(start, end)
        } else {
            Seq::empty()
        };
        (if start > 0 {
            "..."@
        } else {
            Seq::empty()
        }) + mid + (if end < total {
            "..."@
        } else {
            Seq::empty()
        })
    } else if total > context {
        text.take(context as int) + "..."@
    } else {
        text
    }
}

/// The snippet shown for a search hit: the text around the first place where
/// the query occurs, ignoring case (see [`snippet_at`]).
pub open spec fn snippet_text(text: Seq<char>, query: Seq<char>, context: nat) -> Seq<char> {
    snippet_at(text, index_from(lowercase(text), lowercase(query), 0), query.len(), context)
}

/// The snippet of `text` around the first place where `lower_query` occurs
/// in `lower_text`, the two lowered forms of the text and of a query of
/// `query_len` characters (see [`snippet_at`]).
pub fn snippet_around(text: &str, lower_text: &str, lower_query: &str, query_len: usize, context_chars: usize) -> (r: String)
    ensures
        r@ == snippet_at(text@, index_from(lower_text@, lower_query@, 0), query_len as nat, context_chars as nat),
{
    let lower_query = chars_of(lower_query);
    let lower_text = chars_of(lower_text);
    let tc = chars_of(text);
    let total = tc.len();
    let query_chars = query_len;
    let found = find_from(&lower_text, &lower_query, 0);
    proof {
        lemma_index_from(
            lower_text@,
            lower_query@,
            0,
            match found {
                Some(i) => Some(i as int),
                None => None,
            },
        );
    }
    let mut result = String::new();
    match found {
        Some(char_pos) => {
            let half = context_chars / 2;
            let start = if char_pos > half {
                char_pos - half
            } else {
                0
            };
            let end = if char_pos >= total {
                total
            } else if query_chars >= total - char_pos {
                total
            } else if half >= total - char_pos - query_chars {
                total
            } else {
                char_pos + query_chars + half
            };
            if start > 0 {
                result.append("...");
            }
            if start < total {
                push_chars_range(&mut result, &tc, start, end);
            }
            if end < total {
                result.append("...");
            }
            proof {
                let mid = if start < total {
                    text@.subrange(start as int, end as int)
                } else {
                    Seq::<char>::empty()
                };
                assert(result@ =~= (if start > 0 {
                    "..."@
                } else {
                    Seq::<char>::empty()
                }) + mid + (if end < total {
                    "..."@
                } else {
                    Seq::<char>::empty()
                }));
            }
        },
        None => {
            if total > context_chars {
                push_chars_range(&mut result, &tc, 0, context_chars);
                result.append("...");
                assert(result@ =~= text@.take(context_chars as int) + "..."@);
            } else {
                push_chars_range(&mut result, &tc, 0, total);
                assert(result@ =~= text@);
            }
        },
    }
    result
}

/// The snippet of `text` around the first match of `query`, ignoring case
/// (see [`snippet_text`]).
pub fn truncate_with_context(text: &str, query: &str, context_chars: usize) -> (r: String)
    ensures
        r@ == snippet_text(text@, query@, context_chars as nat),
{
    let lower_text = to_lowercase(text);
    let lower_query = to_lowercase(query);
    let query_len = chars_of(query).len();
    snippet_around(text, lower_text.as_str(), lower_query.as_str(), query_len, context_chars)
}

// ───────────────────────── LIKE patterns ─────────────────────────

/// `term` with `%` and `_` escaped by a backslash, so that a SQL `LIKE ...
/// ESCAPE '\'` matches them literally.
pub open spec fn like_escaped(term: Seq<char>) -> Seq<char> {
    replace_seq(replace_seq(term, "%"@, "\\%"@), "_"@, "\\_"@)
}

/// Appends `term` escaped for `LIKE` (see [`like_escaped`]).
pub fn push_like_escaped(out: &mut String, term: &str)
    ensures
        final(out)@ == old(out)@ + like_escaped(term@),
{
    let mut once = String::new();
    push_replaced(&mut once, term, "%", "\\%");
    assert(once@ =~= replace_seq(term@, "%"@, "\\%"@));
    push_replaced(out, once.as_str(), "_", "\\_");
}

/// The `LIKE` pattern that matches any text containing `term` literally.
pub open spec fn like_contains(term: Seq<char>) -> Seq<char> {
    "%"@ + like_escaped(term) + "%"@
}

/// The `LIKE` pattern that matches any text containing `term` literally.
pub fn like_contains_pattern(term: &str) -> (r: String)
    ensures
        r@ == like_contains(term@),
{
    let mut r = String::from_str("%");
    push_like_escaped(&mut r, term);
    r.append("%");
    r
}

// ───────────────────────── SQL queries ─────────────────────────

/// A value bound to a `?N` parameter of a query.
pub enum SqlValue {
    Text(String),
    Integer(i64),
}

/// A bound value as a mathematical value.
pub enum SqlArg {
    Text(Seq<char>),
    Integer(int),
}

/// The view of a bound value.
pub open spec fn arg_of(v: SqlValue) -> SqlArg {
    match v {
        SqlValue::Text(s) => SqlArg::Text(s@),
        SqlValue::Integer(i) => SqlArg::Integer(i as int),
    }
}

/// The views of bound values.
pub open spec fn args_of(v: Seq<SqlValue>) -> Seq<SqlArg> {
    Seq::new(v.len(), |i: int| arg_of(v[i]))
}

/// A query: its SQL text and the values of its `?N` parameters, in order.
pub struct SqlQuery {
    pub sql: String,
    pub params: Vec<SqlValue>,
}

/// The conditions and parameters of a query being built; the next
/// parameter is numbered one past the parameters so far.
pub struct QueryParts {
    pub conds: Seq<Seq<char>>,
    pub params: Seq<SqlArg>,
}

/// The placeholder of the next parameter: `?N`.
pub open spec fn next_slot(q: QueryParts) -> Seq<char> {
    "?"@ + dec_nat(q.params.len() + 1)
}

/// The columns of a listed session.
pub const SESSION_LIST_SELECT: &'static str = "SELECT s.id, s.project_id, s.slug, s.directory, s.title, s.time_created, s.time_updated, s.summary_additions, s.summary_deletions, s.summary_files, s.parent_id, (SELECT COUNT(*) FROM message m WHERE m.session_id = s.id) AS msg_count, (SELECT json_extract(m.data, '$.model.modelID') FROM message m WHERE m.session_id = s.id AND m.data LIKE '%model%' LIMIT 1) AS model, COALESCE((SELECT SUM(json_extract(m.data, '$.cost')) FROM message m WHERE m.session_id = s.id AND json_extract(m.data, '$.cost') IS NOT NULL), 0.0) AS total_cost FROM session s";

/// Adds the title-or-id search condition.
pub open spec fn with_search(q: QueryParts, term: Option<Seq<char>>) -> QueryParts {
    match term {
        Some(t) => {
            let slot = next_slot(q);
            QueryParts {
                conds: q.conds.push(
                    "(s.title LIKE "@ + slot + " ESCAPE '\\' OR s.id LIKE "@ + slot + " ESCAPE '\\')"@,
                ),
                params: q.params.push(SqlArg::Text(like_contains(t))),
            }
        },
        None => q,
    }
}

/// Adds a comparison of the creation time with a bound; `cond` is the
/// condition up to the placeholder.
pub open spec fn with_time_bound(q: QueryParts, bound: Option<i64>, cond: Seq<char>) -> QueryParts {
    match bound {
        Some(ts) => QueryParts {
            conds: q.conds.push(cond + next_slot(q)),
            params: q.params.push(SqlArg::Integer(ts as int)),
        },
        None => q,
    }
}

/// Adds the project condition: the directory is `dir` or ends in `/dir`.
pub open spec fn with_project(q: QueryParts, dir: Option<Seq<char>>) -> QueryParts {
    match dir {
        Some(d) => {
            let exact = "?"@ + dec_nat(q.params.len() + 1);
            let like = "?"@ + dec_nat(q.params.len() + 2);
            QueryParts {
                conds: q.conds.push(
                    "(s.directory = "@ + exact + " OR s.directory LIKE "@ + like + " ESCAPE '\\')"@,
                ),
                params: q.params.push(SqlArg::Text(d)).push(
                    SqlArg::Text("%/"@ + like_escaped(d)),
                ),
            }
        },
        None => q,
    }
}

/// Adds the minimum number of messages.
pub open spec fn with_min_msgs(q: QueryParts, min: Option<i64>) -> QueryParts {
    match min {
        Some(m) => QueryParts {
            conds: q.conds.push(
                "(SELECT COUNT(*) FROM message m WHERE m.session_id = s.id) >= "@ + next_slot(q),
            ),
            params: q.params.push(SqlArg::Integer(m as int)),
        },
        None => q,
    }
}

/// Adds a fixed condition when `on`.
pub open spec fn with_flag(q: QueryParts, on: bool, cond: Seq<char>) -> QueryParts {
    if on {
        QueryParts { conds: q.conds.push(cond), ..q }
    } else {
        q
    }
}

/// The conditions and parameters of a session listing, in the order they
/// are numbered.
pub open spec fn session_list_parts(
    search: Option<Seq<char>>,
    since: Option<i64>,
    until: Option<i64>,
    project: Option<Seq<char>>,
    min_msgs: Option<i64>,
    cli_only: bool,
    show_all: bool,
) -> QueryParts {
    let q0 = QueryParts { conds: Seq::empty(), params: Seq::empty() };
    let q1 = with_search(q0, search);
    let q2 = with_time_bound(q1, since, "s.time_created >= "@);
    let q3 = with_time_bound(q2, until, "s.time_created <= "@);
    let q4 = with_project(q3, project);
    let q5 = with_min_msgs(q4, min_msgs);
    let q6 = with_flag(q5, !show_all, "s.parent_id IS NULL"@);
    with_flag(q6, cli_only, "s.permission IS NULL"@)
}

/// The SQL text of a session listing: the columns, the conditions joined by
/// `AND`, newest first, and a `LIMIT` parameter when `limit > 0`.
pub open spec fn session_list_sql(q: QueryParts, limit: i64) -> Seq<char> {
    SESSION_LIST_SELECT@ + (if q.conds.len() > 0 {
        " WHERE "@ + join_seq(q.conds, " AND "@)
    } else {
        Seq::empty()
    }) + " ORDER BY s.time_created DESC"@ + (if limit > 0 {
        " LIMIT "@ + next_slot(q)
    } else {
        Seq::empty()
    })
}

/// The parameters of a session listing.
pub open spec fn session_list_args(q: QueryParts, limit: i64) -> Seq<SqlArg> {
    if limit > 0 {
        q.params.push(SqlArg::Integer(limit as int))
    } else {
        q.params
    }
}

/// `b` is `a` with conditions and parameters added after its own.
pub open spec fn extends(a: QueryParts, b: QueryParts) -> bool {
    &&& a.conds.len() <= b.conds.len()
    &&& a.params.len() <= b.params.len()
    &&& forall|i: int| 0 <= i < a.conds.len() ==> #[trigger] b.conds[i] == a.conds[i]
    &&& forall|i: int| 0 <= i < a.params.len() ==> #[trigger] b.params[i] == a.params[i]
}

/// Each step of a listing's conditions only adds to what came before.
proof fn lemma_list_steps_extend(
    q: QueryParts,
    search: Option<Seq<char>>,
    bound: Option<i64>,
    cond: Seq<char>,
    project: Option<Seq<char>>,
    min_msgs: Option<i64>,
    on: bool,
    flag: Seq<char>,
)
    ensures
        extends(q, with_search(q, search)),
        extends(q, with_time_bound(q, bound, cond)),
        extends(q, with_project(q, project)),
        extends(q, with_min_msgs(q, min_msgs)),
        extends(q, with_flag(q, on, flag)),
{
}

/// A session listing keeps the sessions created within its date bounds: the
/// `since` value is bound to a parameter that the creation time must be at
/// least, the `until` value to one that it must be at most.
pub proof fn law_list_date_bounds(
    search: Option<Seq<char>>,
    since: Option<i64>,
    until: Option<i64>,
    project: Option<Seq<char>>,
    min_msgs: Option<i64>,
    cli_only: bool,
    show_all: bool,
)
    ensures
        ({
            let q = session_list_parts(search, since, until, project, min_msgs, cli_only, show_all);
            &&& since matches Some(ts) ==> exists|k: nat|
                1 <= k <= q.params.len() && q.params[k - 1] == SqlArg::Integer(ts as int) && q.conds.contains(
                    "s.time_created >= "@ + ("?"@ + dec_nat(k)),
                )
            &&& until matches Some(ts) ==> exists|k: nat|
                1 <= k <= q.params.len() && q.params[k - 1] == SqlArg::Integer(ts as int) && q.conds.contains(
                    "s.time_created <= "@ + ("?"@ + dec_nat(k)),
                )
        }),
{
    let q0 = QueryParts { conds: Seq::empty(), params: Seq::empty() };
    let q1 = with_search(q0, search);
    let q2 = with_time_bound(q1, since, "s.time_created >= "@);
    let q3 = with_time_bound(q2, until, "s.time_created <= "@);
    let q4 = with_project(q3, project);
    let q5 = with_min_msgs(q4, min_msgs);
    let q6 = with_flag(q5, !show_all, "s.parent_id IS NULL"@);
    let q7 = with_flag(q6, cli_only, "s.permission IS NULL"@);
    lemma_list_steps_extend(q2, search, until, "s.time_created <= "@, project, min_msgs, !show_all, ""@);
    lemma_list_steps_extend(q3, search, until, ""@, project, min_msgs, !show_all, ""@);
    lemma_list_steps_extend(q4, search, until, ""@, project, min_msgs, !show_all, ""@);
    lemma_list_steps_extend(q5, search, until, ""@, project, min_msgs, !show_all, "s.parent_id IS NULL"@);
    lemma_list_steps_extend(q6, search, until, ""@, project, min_msgs, cli_only, "s.permission IS NULL"@);
    assert(extends(q3, q7));
    assert(extends(q2, q7));
    if let Some(ts) = since {
        let k = (q1.params.len() + 1) as nat;
        let i = q1.conds.len() as int;
        assert(q2.conds[i] == "s.time_created >= "@ + ("?"@ + dec_nat(k)));
        assert(q7.conds[i] == q2.conds[i]);
        assert(q7.params[k - 1] == q2.params[k - 1]);
        assert(q7.conds.contains("s.time_created >= "@ + ("?"@ + dec_nat(k))));
    }
    if let Some(ts) = until {
        let k = (q2.params.len() + 1) as nat;
        let i = q2.conds.len() as int;
        assert(q3.conds[i] == "s.time_created <= "@ + ("?"@ + dec_nat(k)));
        assert(q7.conds[i] == q3.conds[i]);
        assert(q7.params[k - 1] == q3.params[k - 1]);
        assert(q7.conds.contains("s.time_created <= "@ + ("?"@ + dec_nat(k))));
    }
}

/// The other filters of a session listing each keep what they say: a
/// search keeps the sessions whose title or id contains the term (both
/// compared with one parameter, the term between `%` with `%` and `_`
/// escaped); a project keeps the sessions whose directory is the project or
/// ends in `/` and the project; a minimum keeps the sessions with at least
/// that many messages; sessions with a parent are left out unless all are
/// shown, and only sessions started from the command line are kept when
/// asked.
pub proof fn law_list_filters(
    search: Option<Seq<char>>,
    since: Option<i64>,
    until: Option<i64>,
    project: Option<Seq<char>>,
    min_msgs: Option<i64>,
    cli_only: bool,
    show_all: bool,
)
    ensures
        ({
            let q = session_list_parts(search, since, until, project, min_msgs, cli_only, show_all);
            &&& search matches Some(t) ==> exists|k: nat|
                1 <= k <= q.params.len() && q.params[k - 1] == SqlArg::Text("%"@ + like_escaped(t) + "%"@)
                    && q.conds.contains(
                    "(s.title LIKE "@ + ("?"@ + dec_nat(k)) + " ESCAPE '\\' OR s.id LIKE "@ + ("?"@ + dec_nat(k))
                        + " ESCAPE '\\')"@,
                )
            &&& project matches Some(d) ==> exists|k: nat|
                1 <= k && k + 1 <= q.params.len() && q.params[k - 1] == SqlArg::Text(d) && q.params[k as int]
                    == SqlArg::Text("%/"@ + like_escaped(d)) && q.conds.contains(
                    "(s.directory = "@ + ("?"@ + dec_nat(k)) + " OR s.directory LIKE "@ + ("?"@ + dec_nat(k + 1))
                        + " ESCAPE '\\')"@,
                )
            &&& min_msgs matches Some(m) ==> exists|k: nat|
                1 <= k <= q.params.len() && q.params[k - 1] == SqlArg::Integer(m as int) && q.conds.contains(
                    "(SELECT COUNT(*) FROM message m WHERE m.session_id = s.id) >= "@ + ("?"@ + dec_nat(k)),
                )
            &&& !show_all ==> q.conds.contains("s.parent_id IS NULL"@)
            &&& cli_only ==> q.conds.contains("s.permission IS NULL"@)
        }),
{
    let q0 = QueryParts { conds: Seq::empty(), params: Seq::empty() };
    let q1 = with_search(q0, search);
    let q2 = with_time_bound(q1, since, "s.time_created >= "@);
    let q3 = with_time_bound(q2, until, "s.time_created <= "@);
    let q4 = with_project(q3, project);
    let q5 = with_min_msgs(q4, min_msgs);
    let q6 = with_flag(q5, !show_all, "s.parent_id IS NULL"@);
    let q7 = with_flag(q6, cli_only, "s.permission IS NULL"@);
    lemma_list_steps_extend(q1, search, since, "s.time_created >= "@, project, min_msgs, !show_all, ""@);
    lemma_list_steps_extend(q2, search, until, "s.time_created <= "@, project, min_msgs, !show_all, ""@);
    lemma_list_steps_extend(q3, search, until, ""@, project, min_msgs, !show_all, ""@);
    lemma_list_steps_extend(q4, search, until, ""@, project, min_msgs, !show_all, ""@);
    lemma_list_steps_extend(q5, search, until, ""@, project, min_msgs, !show_all, "s.parent_id IS NULL"@);
    lemma_list_steps_extend(q6, search, until, ""@, project, min_msgs, cli_only, "s.permission IS NULL"@);
    assert(extends(q1, q7));
    assert(extends(q4, q7));
    assert(extends(q5, q7));
    assert(extends(q6, q7));
    if let Some(t) = search {
        let k: nat = 1;
        let c = "(s.title LIKE "@ + ("?"@ + dec_nat(k)) + " ESCAPE '\\' OR s.id LIKE "@ + ("?"@ + dec_nat(k))
            + " ESCAPE '\\')"@;
        assert(q1.conds[0] == c);
        assert(q7.conds[0] == c);
        assert(q7.params[0] == q1.params[0]);
        assert(q7.conds.contains(c));
    }
    if let Some(d) = project {
        let k = (q3.params.len() + 1) as nat;
        let i = q3.conds.len() as int;
        let c = "(s.directory = "@ + ("?"@ + dec_nat(k)) + " OR s.directory LIKE "@ + ("?"@ + dec_nat(k + 1))
            + " ESCAPE '\\')"@;
        assert(q4.conds[i] == c);
        assert(q7.conds[i] == c);
        assert(q7.params[k - 1] == q4.params[k - 1]);
        assert(q7.params[k as int] == q4.params[k as int]);
        assert(q7.conds.contains(c));
    }
    if let Some(m) = min_msgs {
        let k = (q4.params.len() + 1) as nat;
        let i = q4.conds.len() as int;
        let c = "(SELECT COUNT(*) FROM message m WHERE m.session_id = s.id) >= "@ + ("?"@ + dec_nat(k));
        assert(q5.conds[i] == c);
        assert(q7.conds[i] == c);
        assert(q7.params[k - 1] == q5.params[k - 1]);
        assert(q7.conds.contains(c));
    }
    if !show_all {
        let i = q5.conds.len() as int;
        assert(q7.conds[i] == "s.parent_id IS NULL"@);
        assert(q7.conds.contains("s.parent_id IS NULL"@));
    }
    if cli_only {
        let i = q6.conds.len() as int;
        assert(q7.conds[i] == "s.permission IS NULL"@);
        assert(q7.conds.contains("s.permission IS NULL"@));
    }
}

/// A listing shows the newest sessions first, and at most `limit` of them
/// when `limit > 0`: the limit is the last parameter, and the SQL ends by
/// ordering on creation time, newest first, then limiting to that last
/// parameter; with no limit nothing more is bound.
pub proof fn law_list_newest_first_up_to_limit(q: QueryParts, limit: i64)
    ensures
        ({
            let sql = session_list_sql(q, limit);
            let args = session_list_args(q, limit);
            let order = " ORDER BY s.time_created DESC"@;
            &&& limit > 0 ==> args.len() == q.params.len() + 1 && args.last() == SqlArg::Integer(limit as int)
                && args.drop_last() == q.params
            &&& limit > 0 ==> ({
                let tail = order + " LIMIT "@ + ("?"@ + dec_nat(args.len()));
                tail.len() <= sql.len() && sql.subrange(sql.len() - tail.len(), sql.len() as int) == tail
            })
            &&& limit <= 0 ==> args == q.params && order.len() <= sql.len() && sql.subrange(
                sql.len() - order.len(),
                sql.len() as int,
            ) == order
        }),
{
    let sql = session_list_sql(q, limit);
    let args = session_list_args(q, limit);
    let order = " ORDER BY s.time_created DESC"@;
    let pre = SESSION_LIST_SELECT@ + (if q.conds.len() > 0 {
        " WHERE "@ + join_seq(q.conds, " AND "@)
    } else {
        Seq::empty()
    });
    if limit > 0 {
        let tail = order + " LIMIT "@ + ("?"@ + dec_nat(args.len()));
        assert(args.drop_last() =~= q.params);
        assert(sql =~= pre + tail);
        assert(sql.subrange(sql.len() - tail.len(), sql.len() as int) =~= tail);
    } else {
        assert(sql =~= pre + order);
        assert(sql.subrange(sql.len() - order.len(), sql.len() as int) =~= order);
    }
}

fn push_slot(out: &mut String, n: usize)
    ensures
        final(out)@ == old(out)@ + "?"@ + dec_nat(n as nat),
{
    out.append("?");
    push_dec_usize(out, n);
}

/// The view of an optional string argument.
pub open spec fn opt_view(o: Option<&str>) -> Option<Seq<char>> {
    match o {
        Some(t) => Some(t@),
        None => None,
    }
}

/// Conditions and parameters gathered while a query is built.
struct QueryBuilder {
    conds: Vec<String>,
    params: Vec<SqlValue>,
}

impl QueryBuilder {
    spec fn parts(&self) -> QueryParts {
        QueryParts { conds: strs(self.conds@), params: args_of(self.params@) }
    }

    fn new() -> (b: Self)
        ensures
            b.parts() == (QueryParts { conds: Seq::empty(), params: Seq::empty() }),
            b.params@.len() == 0,
    {
        let b = QueryBuilder { conds: Vec::new(), params: Vec::new() };
        assert(b.parts().conds =~= Seq::<Seq<char>>::empty());
        assert(b.parts().params =~= Seq::<SqlArg>::empty());
        b
    }

    fn push_cond(&mut self, c: String)
        ensures
            final(self).parts() == (QueryParts { conds: old(self).parts().conds.push(c@), ..old(self).parts() }),
            final(self).params@ == old(self).params@,
    {
        proof {
            lemma_strs_push(self.conds@, c);
        }
        self.conds.push(c);
    }

    fn push_param(&mut self, v: SqlValue)
        ensures
            final(self).parts() == (QueryParts {
                params: old(self).parts().params.push(arg_of(v)),
                ..old(self).parts()
            }),
            final(self).params@ == old(self).params@.push(v),
    {
        self.params.push(v);
        assert(args_of(self.params@) =~= args_of(old(self).params@).push(arg_of(v)));
    }

    fn add_search(&mut self, term: Option<&str>)
        requires
            old(self).params@.len() < usize::MAX,
        ensures
            final(self).parts() == with_search(old(self).parts(), opt_view(term)),
            final(self).params@.len() <= old(self).params@.len() + 1,
    {
        if let Some(t) = term {
            let mut c = String::from_str("(s.title LIKE ");
            push_slot(&mut c, self.params.len() + 1);
            c.append(" ESCAPE '\\' OR s.id LIKE ");
            push_slot(&mut c, self.params.len() + 1);
            c.append(" ESCAPE '\\')");
            proof {
                let slot = next_slot(self.parts());
                assert(c@ =~= "(s.title LIKE "@ + slot + " ESCAPE '\\' OR s.id LIKE "@ + slot
                    + " ESCAPE '\\')"@);
            }
            self.push_cond(c);
            self.push_param(SqlValue::Text(like_contains_pattern(t)));
        }
    }

    fn add_time_bound(&mut self, bound: Option<i64>, cond: &str)
        requires
            old(self).params@.len() < usize::MAX,
        ensures
            final(self).parts() == with_time_bound(old(self).parts(), bound, cond@),
            final(self).params@.len() <= old(self).params@.len() + 1,
    {
        if let Some(ts) = bound {
            let mut c = String::from_str(cond);
            push_slot(&mut c, self.params.len() + 1);
            assert(c@ =~= cond@ + next_slot(self.parts()));
            self.push_cond(c);
            self.push_param(SqlValue::Integer(ts));
        }
    }

    fn add_project(&mut self, dir: Option<&str>)
        requires
            old(self).params@.len() + 1 < usize::MAX,
        ensures
            final(self).parts() == with_project(old(self).parts(), opt_view(dir)),
            final(self).params@.len() <= old(self).params@.len() + 2,
    {
        if let Some(d) = dir {
            let mut like = String::from_str("%/");
            push_like_escaped(&mut like, d);
            let mut c = String::from_str("(s.directory = ");
            push_slot(&mut c, self.params.len() + 1);
            c.append(" OR s.directory LIKE ");
            push_slot(&mut c, self.params.len() + 2);
            c.append(" ESCAPE '\\')");
            proof {
                let exact = "?"@ + dec_nat(self.params@.len() + 1);
                let like = "?"@ + dec_nat(self.params@.len() + 2);
                assert(c@ =~= "(s.directory = "@ + exact + " OR s.directory LIKE "@ + like
                    + " ESCAPE '\\')"@);
            }
            self.push_cond(c);
            self.push_param(SqlValue::Text(String::from_str(d)));
            self.push_param(SqlValue::Text(like));
        }
    }

    fn add_min_msgs(&mut self, min: Option<i64>)
        requires
            old(self).params@.len() < usize::MAX,
        ensures
            final(self).parts() == with_min_msgs(old(self).parts(), min),
            final(self).params@.len() <= old(self).params@.len() + 1,
    {
        if let Some(m) = min {
            let mut c = String::from_str("(SELECT COUNT(*) FROM message m WHERE m.session_id = s.id) >= ");
            push_slot(&mut c, self.params.len() + 1);
            assert(c@ =~= "(SELECT COUNT(*) FROM message m WHERE m.session_id = s.id) >= "@ + next_slot(
                self.parts(),
            ));
            self.push_cond(c);
            self.push_param(SqlValue::Integer(m));
        }
    }

    fn add_flag(&mut self, on: bool, cond: &str)
        ensures
            final(self).parts() == with_flag(old(self).parts(), on, cond@),
            final(self).params@.len() == old(self).params@.len(),
    {
        if on {
            self.push_cond(String::from_str(cond));
        }
    }
}

/// The query that lists sessions: optionally only those whose title or id
/// contains `search`, created within `since..=until`, in `project` (the
/// directory itself or one ending in `/project`), with at least `min_msgs`
/// messages, without a parent unless `show_all`, started from the command
/// line when `cli_only`; newest first, at most `limit` when `limit > 0`.
pub fn session_list_query(
    limit: i64,
    search: Option<&str>,
    since: Option<i64>,
    until: Option<i64>,
    project: Option<&str>,
    min_msgs: Option<i64>,
    cli_only: bool,
    show_all: bool,
) -> (r: SqlQuery)
    ensures
        ({
            let q = session_list_parts(
                opt_view(search),
                since,
                until,
                opt_view(project),
                min_msgs,
                cli_only,
                show_all,
            );
            &&& r.sql@ == session_list_sql(q, limit)
            &&& args_of(r.params@) == session_list_args(q, limit)
        }),
{
    let mut b = QueryBuilder::new();
    b.add_search(search);
    b.add_time_bound(since, "s.time_created >= ");
    b.add_time_bound(until, "s.time_created <= ");
    b.add_project(project);
    b.add_min_msgs(min_msgs);
    b.add_flag(!show_all, "s.parent_id IS NULL");
    b.add_flag(cli_only, "s.permission IS NULL");
    let ghost q = b.parts();
    let mut sql = String::from_str(SESSION_LIST_SELECT);
    if b.conds.len() > 0 {
        sql.append(" WHERE ");
        push_joined(&mut sql, &b.conds, " AND ");
    }
    sql.append(" ORDER BY s.time_created DESC");
    let mut params = b.params;
    if limit > 0 {
        sql.append(" LIMIT ");
        push_slot(&mut sql, params.len() + 1);
        params.push(SqlValue::Integer(limit));
    }
    proof {
        assert(sql@ =~= session_list_sql(q, limit));
        assert(args_of(params@) =~= session_list_args(q, limit));
    }
    SqlQuery { sql, params }
}

// ───────────────────────── lookups by id ─────────────────────────

/// The numbered placeholders `?1,?2,...` for the first `n` parameters.
pub open spec fn placeholders(n: nat) -> Seq<char>
    decreases n,
{
    if n == 0 {
        Seq::empty()
    } else if n == 1 {
        "?1"@
    } else {
        placeholders((n - 1) as nat) + ","@ + "?"@ + dec_nat(n)
    }
}

fn push_placeholders(out: &mut String, n: usize)
    ensures
        final(out)@ == old(out)@ + placeholders(n as nat),
{
    let ghost start = out@;
    let mut i: usize = 0;
    while i < n
        invariant
            i <= n,
            out@ == start + placeholders(i as nat),
        decreases n - i,
    {
        if i > 0 {
            out.append(",");
        }
        push_slot(out, i + 1);
        proof {
            if i == 0 {
                reveal_strlit("?1");
                reveal_strlit("?");
                assert(dec_nat(1) == seq!['1']);
                assert(out@ =~= start + placeholders(1));
            } else {
                assert(out@ =~= start + placeholders((i + 1) as nat));
            }
        }
        i = i + 1;
    }
}

/// The query for the sessions with the `n` ids bound to its parameters,
/// newest first.
pub open spec fn sessions_by_ids_sql(n: nat) -> Seq<char> {
    SESSION_LIST_SELECT@ + " WHERE s.id IN ("@ + placeholders(n) + ") ORDER BY s.time_created DESC"@
}

/// The query for the sessions with `n` given ids (see
/// [`sessions_by_ids_sql`]).
pub fn sessions_by_ids_query(n: usize) -> (r: String)
    ensures
        r@ == sessions_by_ids_sql(n as nat),
{
    let mut r = String::from_str(SESSION_LIST_SELECT);
    r.append(" WHERE s.id IN (");
    push_placeholders(&mut r, n);
    r.append(") ORDER BY s.time_created DESC");
    r
}

/// The query for the session with the id bound to `?1`.
pub open spec fn session_by_id_sql() -> Seq<char> {
    SESSION_LIST_SELECT@ + " WHERE s.id = ?1"@
}

/// The query for one session by id (see [`session_by_id_sql`]).
pub fn session_by_id_query() -> (r: String)
    ensures
        r@ == session_by_id_sql(),
{
    let mut r = String::from_str(SESSION_LIST_SELECT);
    r.append(" WHERE s.id = ?1");
    r
}

/// The query for the sessions created before the time bound to `?1`,
/// oldest first, at most `?2` of them.
pub open spec fn old_sessions_sql() -> Seq<char> {
    SESSION_LIST_SELECT@ + " WHERE s.time_created < ?1 ORDER BY s.time_created ASC LIMIT ?2"@
}

/// The query for the sessions older than a cutoff (see
/// [`old_sessions_sql`]).
pub fn old_sessions_query() -> (r: String)
    ensures
        r@ == old_sessions_sql(),
{
    let mut r = String::from_str(SESSION_LIST_SELECT);
    r.append(" WHERE s.time_created < ?1 ORDER BY s.time_created ASC LIMIT ?2");
    r
}

/// The query for the parts of the `n` messages whose ids are bound to its
/// parameters, ordered by part id.
pub open spec fn parts_batch_sql(n: nat) -> Seq<char> {
    "SELECT id, message_id, data FROM part WHERE message_id IN ("@ + placeholders(n) + ") ORDER BY id ASC"@
}

/// The query for the parts of `n` messages (see [`parts_batch_sql`]).
pub fn parts_batch_query(n: usize) -> (r: String)
    ensures
        r@ == parts_batch_sql(n as nat),
{
    let mut r = String::from_str("SELECT id, message_id, data FROM part WHERE message_id IN (");
    push_placeholders(&mut r, n);
    r.append(") ORDER BY id ASC");
    r
}

// ───────────────────────── content search ─────────────────────────

/// The columns and joins of a content search over text and reasoning parts.
pub const CONTENT_SEARCH_SELECT: &'static str = "SELECT s.id AS session_id, s.title, s.time_created, m.id AS message_id, m.time_created AS msg_time_created, p.id AS part_id, p.data AS part_data FROM part p JOIN message m ON m.id = p.message_id JOIN session s ON s.id = m.session_id WHERE p.data LIKE ? ESCAPE '\\' AND json_extract(p.data, '$.type') IN ('text', 'reasoning')";

/// The SQL text of a content search.
pub open spec fn content_search_sql(since: Option<i64>, until: Option<i64>, offset: Option<i64>) -> Seq<char> {
    CONTENT_SEARCH_SELECT@ + (if since is Some {
        " AND s.time_created >= ?"@
    } else {
        Seq::empty()
    }) + (if until is Some {
        " AND s.time_created <= ?"@
    } else {
        Seq::empty()
    }) + " ORDER BY m.time_created DESC LIMIT ?"@ + (if offset matches Some(o) && o > 0 {
        " OFFSET ?"@
    } else {
        Seq::empty()
    })
}

/// The parameters of a content search, in placeholder order.
pub open spec fn content_search_args(
    query: Seq<char>,
    limit: i64,
    offset: Option<i64>,
    since: Option<i64>,
    until: Option<i64>,
) -> Seq<SqlArg> {
    let a0 = seq![SqlArg::Text(like_contains(query))];
    let a1 = match since {
        Some(t) => a0.push(SqlArg::Integer(t as int)),
        None => a0,
    };
    let a2 = match until {
        Some(t) => a1.push(SqlArg::Integer(t as int)),
        None => a1,
    };
    let a3 = a2.push(SqlArg::Integer(limit as int));
    match offset {
        Some(o) => if o > 0 {
            a3.push(SqlArg::Integer(o as int))
        } else {
            a3
        },
        None => a3,
    }
}

/// The query that finds text and reasoning parts containing `query`
/// literally, in sessions created within `since..=until`, newest message
/// first, at most `limit`, skipping `offset` when it is positive.
pub fn content_search_query(
    query: &str,
    limit: i64,
    offset: Option<i64>,
    since: Option<i64>,
    until: Option<i64>,
) -> (r: SqlQuery)
    ensures
        r.sql@ == content_search_sql(since, until, offset),
        args_of(r.params@) == content_search_args(query@, limit, offset, since, until),
{
    let mut sql = String::from_str(CONTENT_SEARCH_SELECT);
    let mut params: Vec<SqlValue> = Vec::new();
    params.push(SqlValue::Text(like_contains_pattern(query)));
    let ghost a0 = args_of(params@);
    if let Some(ts) = since {
        sql.append(" AND s.time_created >= ?");
        params.push(SqlValue::Integer(ts));
    }
    let ghost a1 = args_of(params@);
    if let Some(ts) = until {
        sql.append(" AND s.time_created <= ?");
        params.push(SqlValue::Integer(ts));
    }
    let ghost a2 = args_of(params@);
    sql.append(" ORDER BY m.time_created DESC LIMIT ?");
    params.push(SqlValue::Integer(limit));
    let ghost a3 = args_of(params@);
    if let Some(off) = offset {
        if off > 0 {
            sql.append(" OFFSET ?");
            params.push(SqlValue::Integer(off));
        }
    }
    proof {
        assert(a0 =~= seq![SqlArg::Text(like_contains(query@))]);
        assert(sql@ =~= content_search_sql(since, until, offset));
        assert(args_of(params@) =~= content_search_args(query@, limit, offset, since, until));
    }
    SqlQuery { sql, params }
}

// ───────────────────────── top sessions ─────────────────────────

/// What the top-sessions ranking orders by.
#[derive(Clone, Copy, Debug, PartialEq, Eq, Structural)]
pub enum TopSort {
    Cost,
    Tokens,
    Msgs,
}

/// A ranking order that is none of `cost`, `tokens` and `msgs`.
pub struct InvalidSortField {
    pub field: String,
}

impl InvalidSortField {
    /// The message shown for this error.
    pub fn message(&self) -> (r: String)
        ensures
            r@ == "Invalid sort field: "@ + self.field@ + ". Use 'cost', 'tokens', or 'msgs'."@,
    {
        let mut r = String::from_str("Invalid sort field: ");
        r.append(self.field.as_str());
        r.append(". Use 'cost', 'tokens', or 'msgs'.");
        r
    }
}

/// The ranking order named `s`.
pub open spec fn top_sort_named(s: Seq<char>) -> Option<TopSort> {
    if s == "cost"@ {
        Some(TopSort::Cost)
    } else if s == "tokens"@ {
        Some(TopSort::Tokens)
    } else if s == "msgs"@ {
        Some(TopSort::Msgs)
    } else {
        None
    }
}

/// The ranking order named `s`; any other name is refused.
pub fn parse_top_sort(s: &str) -> (r: Result<TopSort, InvalidSortField>)
    ensures
        match r {
            Ok(t) => top_sort_named(s@) == Some(t),
            Err(e) => top_sort_named(s@) is None && e.field@ == s@,
        },
{
    if str_eq(s, "cost") {
        Ok(TopSort::Cost)
    } else if str_eq(s, "tokens") {
        Ok(TopSort::Tokens)
    } else if str_eq(s, "msgs") {
        Ok(TopSort::Msgs)
    } else {
        Err(InvalidSortField { field: String::from_str(s) })
    }
}

/// The columns, joins and grouping of the top-sessions ranking, up to the
/// column it orders by.
pub const TOP_SESSIONS_SELECT: &'static str = "SELECT s.id, s.title, s.directory, s.time_created, COUNT(m.id) AS msg_count, COALESCE(SUM(CAST(json_extract(m.data, '$.cost') AS REAL)), 0) AS total_cost, COALESCE(SUM(CAST(json_extract(m.data, '$.tokens.total') AS INTEGER)), 0) AS total_tokens, COALESCE(SUM(CAST(json_extract(m.data, '$.tokens.input') AS INTEGER)), 0) AS total_input, COALESCE(SUM(CAST(json_extract(m.data, '$.tokens.output') AS INTEGER)), 0) AS total_output FROM session s JOIN message m ON m.session_id = s.id GROUP BY s.id ORDER BY ";

/// The column a ranking orders by.
pub open spec fn top_sort_column(t: TopSort) -> Seq<char> {
    match t {
        TopSort::Cost => "total_cost"@,
        TopSort::Tokens => "total_tokens"@,
        TopSort::Msgs => "msg_count"@,
    }
}

/// A ranking orders by the quantity its name says, largest first: `cost`
/// by the summed cost, `tokens` by the summed tokens, `msgs` by the message
/// count; each column is one the query computes, and different rankings
/// order by different columns.
pub proof fn law_ranking_orders_by_its_named_quantity(name: Seq<char>, t: TopSort, u: TopSort)
    requires
        top_sort_named(name) == Some(t),
    ensures
        name == "cost"@ ==> top_sort_column(t) == "total_cost"@,
        name == "tokens"@ ==> top_sort_column(t) == "total_tokens"@,
        name == "msgs"@ ==> top_sort_column(t) == "msg_count"@,
        t != u ==> top_sort_column(t) != top_sort_column(u),
{
    reveal_strlit("cost");
    reveal_strlit("tokens");
    reveal_strlit("msgs");
    reveal_strlit("total_cost");
    reveal_strlit("total_tokens");
    reveal_strlit("msg_count");
    assert("tokens"@.len() != "cost"@.len());
    assert("msgs"@[0] != "cost"@[0]);
    assert("msgs"@.len() != "tokens"@.len());
    assert("total_cost"@.len() != "total_tokens"@.len());
    assert("total_cost"@[0] != "msg_count"@[0]);
    assert("total_tokens"@[0] != "msg_count"@[0]);
}

/// The SQL text of the top-sessions ranking; its one parameter is the limit.
pub fn top_sessions_sql(t: TopSort) -> (r: String)
    ensures
        r@ == TOP_SESSIONS_SELECT@ + top_sort_column(t) + " DESC LIMIT ?1"@,
{
    let mut r = String::from_str(TOP_SESSIONS_SELECT);
    match t {
        TopSort::Cost => r.append("total_cost"),
        TopSort::Tokens => r.append("total_tokens"),
        TopSort::Msgs => r.append("msg_count"),
    }
    r.append(" DESC LIMIT ?1");
    r
}

// ───────────────────────── joining parts to messages ─────────────────────────

/// The parts of `parts` that belong to message `id`, in order.
pub open spec fn parts_for(parts: Seq<Part>, id: Seq<char>) -> Seq<Part>
    decreases parts.len(),
{
    if parts.len() == 0 {
        Seq::empty()
    } else if parts[0].message_id@ == id {
        seq![parts[0]] + parts_for(parts.skip(1), id)
    } else {
        parts_for(parts.skip(1), id)
    }
}

/// Whether message `i` is the first of `msgs` with its id.
pub open spec fn first_with_its_id(msgs: Seq<Message>, i: int) -> bool {
    forall|j: int| 0 <= j < i ==> #[trigger] msgs[j].id@ != msgs[i].id@
}

/// The parts message `i` gets: all parts that belong to it when it is the
/// first message with its id, none otherwise.
pub open spec fn parts_of_message(msgs: Seq<Message>, parts: Seq<Part>, i: int) -> Seq<Part> {
    if first_with_its_id(msgs, i) {
        parts_for(parts, msgs[i].id@)
    } else {
        Seq::empty()
    }
}

/// The index of the first message with id `id`, if any.
fn first_message_with_id(msgs: &Vec<Message>, id: &String) -> (r: Option<usize>)
    ensures
        match r {
            Some(i) => i < msgs@.len() && msgs@[i as int].id@ == id@ && first_with_its_id(msgs@, i as int),
            None => forall|j: int| 0 <= j < msgs@.len() ==> #[trigger] msgs@[j].id@ != id@,
        },
{
    let mut i: usize = 0;
    while i < msgs.len()
        invariant
            i <= msgs@.len(),
            forall|j: int| 0 <= j < i ==> #[trigger] msgs@[j].id@ != id@,
        decreases msgs@.len() - i,
    {
        if str_eq(msgs[i].id.as_str(), id.as_str()) {
            return Some(i);
        }
        i = i + 1;
    }
    None
}

/// Each message with the parts that belong to it, in message order and part
/// order; a part whose message is not in `msgs` is dropped, and when two
/// messages share an id the first gets the parts.
pub fn attach_parts(msgs: Vec<Message>, parts: Vec<Part>) -> (r: Vec<MessageWithParts>)
    ensures
        r@.len() == msgs@.len(),
        forall|i: int|
            0 <= i < r@.len() ==> #[trigger] r@[i].message == msgs@[i] && r@[i].parts@
                == parts_of_message(msgs@, parts@, i),
{
    let ghost all = parts@;
    let ghost ms = msgs@;
    let n = msgs.len();
    let mut buckets: Vec<Vec<Part>> = Vec::new();
    let mut b: usize = 0;
    while b < n
        invariant
            b <= n,
            n == msgs@.len(),
            buckets@.len() == b,
            forall|i: int| 0 <= i < b ==> #[trigger] buckets@[i]@ == Seq::<Part>::empty(),
        decreases n - b,
    {
        buckets.push(Vec::new());
        b = b + 1;
    }
    let mut pool = parts;
    proof {
        assert(all.skip(all.len() as int) =~= Seq::<Part>::empty());
        assert forall|i: int| 0 <= i < n implies #[trigger] buckets@[i]@ == parts_of_message(
            ms,
            all.skip(all.len() as int),
            i,
        ) by {}
    }
    while pool.len() > 0
        invariant
            pool@.len() <= all.len(),
            pool@ == all.take(pool@.len() as int),
            msgs@ == ms,
            n == ms.len(),
            buckets@.len() == n,
            forall|i: int|
                0 <= i < n ==> #[trigger] buckets@[i]@ == parts_of_message(ms, all.skip(pool@.len() as int), i),
        decreases pool@.len(),
    {
        let k = pool.len();
        let p = pool.pop().unwrap();
        let ghost rest = all.skip(k as int);
        let ghost now = all.skip(k - 1);
        proof {
            assert(p == all[k - 1]);
            assert(now =~= seq![p] + rest);
            assert(now.skip(1) =~= rest);
            assert(pool@ =~= all.take(k - 1));
        }
        match first_message_with_id(&msgs, &p.message_id) {
            Some(idx) => {
                let ghost before = buckets@;
                buckets[idx].insert(0, p);
                proof {
                    assert forall|i: int| 0 <= i < n implies #[trigger] buckets@[i]@ == parts_of_message(ms, now, i) by {
                        if i == idx {
                            assert(buckets@[i]@ =~= seq![p] + before[i]@);
                        } else {
                            assert(buckets@[i] == before[i]);
                            if first_with_its_id(ms, i) && ms[i].id@ == p.message_id@ {
                                if i < idx {
                                    assert(ms[i].id@ != p.message_id@);
                                } else {
                                    assert(ms[idx as int].id@ != ms[i].id@);
                                }
                            }
                        }
                    }
                }
            },
            None => {
                proof {
                    assert forall|i: int| 0 <= i < n implies #[trigger] buckets@[i]@ == parts_of_message(ms, now, i) by {
                        assert(ms[i].id@ != p.message_id@);
                    }
                }
            },
        }
    }
    proof {
        assert(all.skip(0) =~= all);
    }
    let mut out: Vec<MessageWithParts> = Vec::new();
    let mut ms_left = msgs;
    while ms_left.len() > 0
        invariant
            ms_left@.len() <= n,
            ms_left@ == ms.take(ms_left@.len() as int),
            buckets@.len() == ms_left@.len(),
            n == ms.len(),
            forall|i: int| 0 <= i < buckets@.len() ==> #[trigger] buckets@[i]@ == parts_of_message(ms, all, i),
            out@.len() == n - ms_left@.len(),
            forall|i: int|
                0 <= i < out@.len() ==> #[trigger] out@[i].message == ms[ms_left@.len() + i] && out@[i].parts@
                    == parts_of_message(ms, all, ms_left@.len() + i),
        decreases ms_left@.len(),
    {
        let k = ms_left.len();
        let m = ms_left.pop().unwrap();
        let bk = buckets.pop().unwrap();
        let ghost before = out@;
        proof {
            assert(m == ms[k - 1]);
            assert(ms_left@ =~= ms.take(k - 1));
        }
        out.insert(0, MessageWithParts { message: m, parts: bk });
        proof {
            assert forall|i: int| 0 <= i < out@.len() implies #[trigger] out@[i].message == ms[(k - 1) + i]
                && out@[i].parts@ == parts_of_message(ms, all, (k - 1) + i) by {
                if i > 0 {
                    assert(out@[i] == before[i - 1]);
                }
            }
        }
    }
    out
}

// ───────────────────────── message text ─────────────────────────

/// The text and reasoning texts of parts, each followed by a newline.
pub open spec fn text_lines(parts: Seq<PartData>) -> Seq<char>
    decreases parts.len(),
{
    if parts.len() == 0 {
        Seq::empty()
    } else {
        let p = parts.last();
        let rest = text_lines(parts.drop_last());
        if (p.part_type@ == "text"@ || p.part_type@ == "reasoning"@) && p.text is Some {
            rest + p.text->0@ + "\n"@
        } else {
            rest
        }
    }
}

/// The editable text of a message from the data of its parts: the text and
/// reasoning texts, one per line, trimmed.
pub fn message_text(parts: &Vec<PartData>) -> (r: String)
    ensures
        r@ == trim_seq(text_lines(parts@)),
{
    let mut text = String::new();
    let mut k: usize = 0;
    while k < parts.len()
        invariant
            k <= parts@.len(),
            text@ == text_lines(parts@.take(k as int)),
        decreases parts@.len() - k,
    {
        proof {
            assert(parts@.take(k + 1).drop_last() =~= parts@.take(k as int));
        }
        let p = &parts[k];
        if str_eq(p.part_type.as_str(), "text") || str_eq(p.part_type.as_str(), "reasoning") {
            if let Some(t) = &p.text {
                text.append(t.as_str());
                text.append("\n");
            }
        }
        k = k + 1;
    }
    proof {
        assert(parts@.take(parts@.len() as int) =~= parts@);
    }
    trim(text.as_str())
}

} // verus!
