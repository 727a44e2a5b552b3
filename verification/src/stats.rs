//! Aggregation of token usage and cost over the messages of a session:
//! totals, counts by role, the per-agent breakdown ordered by cost, and the
//! usage summary two sessions are compared by.

use vstd::prelude::*;

use crate::models::{AgentBreakdown, MessageData, MessageWithParts, SessionStats};
use crate::sorted::{sorted_set_of, sorted_unique};
use crate::text::{lemma_strs_push, str_eq, strs};

verus! {

// ───────────────────────── per-message quantities ─────────────────────────

/// The agent a message is counted under (`unknown` when it names none).
pub open spec fn agent_of(d: MessageData) -> Seq<char> {
    match d.agent {
        Some(a) => a@,
        None => "unknown"@,
    }
}

/// A token count of a message, 0 when the message or the count is missing.
pub open spec fn opt_count(o: Option<i64>) -> int {
    match o {
        Some(v) => v as int,
        None => 0,
    }
}

/// The total tokens of a message.
pub open spec fn total_tokens_of(d: MessageData) -> int {
    match d.tokens {
        Some(t) => opt_count(t.total),
        None => 0,
    }
}

/// The input tokens of a message.
pub open spec fn input_tokens_of(d: MessageData) -> int {
    match d.tokens {
        Some(t) => opt_count(t.input),
        None => 0,
    }
}

/// The output tokens of a message.
pub open spec fn output_tokens_of(d: MessageData) -> int {
    match d.tokens {
        Some(t) => opt_count(t.output),
        None => 0,
    }
}

/// The reasoning tokens of a message.
pub open spec fn reasoning_tokens_of(d: MessageData) -> int {
    match d.tokens {
        Some(t) => opt_count(t.reasoning),
        None => 0,
    }
}

/// The cache-write tokens of a message.
pub open spec fn cache_write_of(d: MessageData) -> int {
    match d.tokens {
        Some(t) => match t.cache {
            Some(c) => opt_count(c.write),
            None => 0,
        },
        None => 0,
    }
}

/// The cache-read tokens of a message.
pub open spec fn cache_read_of(d: MessageData) -> int {
    match d.tokens {
        Some(t) => match t.cache {
            Some(c) => opt_count(c.read),
            None => 0,
        },
        None => 0,
    }
}

/// The cost of a message in millionths of a dollar, 0 when it has none.
pub open spec fn cost_of(d: MessageData) -> int {
    opt_count(d.cost)
}

// ───────────────────────── sums ─────────────────────────

/// Which per-message quantity a sum adds up.
pub enum Qty {
    /// One for each message: the sum counts them.
    One,
    TotalTokens,
    InputTokens,
    OutputTokens,
    ReasoningTokens,
    CacheWrite,
    CacheRead,
    Cost,
}

/// The quantity `q` of a message.
pub open spec fn qty(q: Qty, d: MessageData) -> int {
    match q {
        Qty::One => 1,
        Qty::TotalTokens => total_tokens_of(d),
        Qty::InputTokens => input_tokens_of(d),
        Qty::OutputTokens => output_tokens_of(d),
        Qty::ReasoningTokens => reasoning_tokens_of(d),
        Qty::CacheWrite => cache_write_of(d),
        Qty::CacheRead => cache_read_of(d),
        Qty::Cost => cost_of(d),
    }
}

/// The sum of quantity `q` over the messages.
#[verifier::opaque]
pub open spec fn sum_of(rows: Seq<MessageData>, q: Qty) -> int
    decreases rows.len(),
{
    if rows.len() == 0 {
        0
    } else {
        sum_of(rows.drop_last(), q) + qty(q, rows.last())
    }
}

/// The number of messages whose role is `role`.
#[verifier::opaque]
pub open spec fn role_count(rows: Seq<MessageData>, role: Seq<char>) -> int
    decreases rows.len(),
{
    if rows.len() == 0 {
        0
    } else {
        role_count(rows.drop_last(), role) + if rows.last().role@ == role {
            1int
        } else {
            0int
        }
    }
}

/// The sum of quantity `q` over the messages counted under agent `a`.
#[verifier::opaque]
pub open spec fn agent_sum(rows: Seq<MessageData>, a: Seq<char>, q: Qty) -> int
    decreases rows.len(),
{
    if rows.len() == 0 {
        0
    } else {
        agent_sum(rows.drop_last(), a, q) + if agent_of(rows.last()) == a {
            qty(q, rows.last())
        } else {
            0
        }
    }
}

/// Sums of `n` quantities stay within `n` times the magnitude of an `i64`.
pub proof fn lemma_sum_bound(rows: Seq<MessageData>, q: Qty, a: Seq<char>)
    ensures
        -0x8000_0000_0000_0000 * rows.len() <= sum_of(rows, q) <= 0x8000_0000_0000_0000 * rows.len(),
        -0x8000_0000_0000_0000 * rows.len() <= agent_sum(rows, a, q) <= 0x8000_0000_0000_0000 * rows.len(),
    decreases rows.len(),
{
    reveal_with_fuel(sum_of, 1);
    reveal_with_fuel(agent_sum, 1);
    if rows.len() > 0 {
        lemma_sum_bound(rows.drop_last(), q, a);
    }
}

/// Adding one message counts it under its role.
proof fn lemma_role_push(pre: Seq<MessageData>, d: MessageData, role: Seq<char>)
    ensures
        role_count(pre.push(d), role) == role_count(pre, role) + if d.role@ == role {
            1int
        } else {
            0int
        },
{
    reveal_with_fuel(role_count, 1);
    assert(pre.push(d).drop_last() =~= pre);
}

/// No messages, no sums.
proof fn lemma_sums_empty(rows: Seq<MessageData>)
    requires
        rows.len() == 0,
    ensures
        forall|q: Qty| #[trigger] sum_of(rows, q) == 0,
        forall|r: Seq<char>| #[trigger] role_count(rows, r) == 0,
        forall|a: Seq<char>, q: Qty| #[trigger] agent_sum(rows, a, q) == 0,
{
    reveal_with_fuel(sum_of, 1);
    reveal_with_fuel(role_count, 1);
    reveal_with_fuel(agent_sum, 1);
}

/// Role counts are between 0 and the number of messages.
pub proof fn lemma_role_count_bound(rows: Seq<MessageData>, role: Seq<char>)
    ensures
        0 <= role_count(rows, role) <= rows.len(),
    decreases rows.len(),
{
    reveal_with_fuel(role_count, 1);
    if rows.len() > 0 {
        lemma_role_count_bound(rows.drop_last(), role);
    }
}

/// Adding one message adds its quantity to each sum.
proof fn lemma_sum_push(pre: Seq<MessageData>, d: MessageData, q: Qty)
    ensures
        sum_of(pre.push(d), q) == sum_of(pre, q) + qty(q, d),
        pre.push(d).len() <= 0xffff_ffff_ffff_ffff ==> -0x8000_0000_0000_0000 * 0xffff_ffff_ffff_ffff
            <= sum_of(pre.push(d), q) <= 0x8000_0000_0000_0000 * 0xffff_ffff_ffff_ffff,
{
    reveal_with_fuel(sum_of, 1);
    assert(pre.push(d).drop_last() =~= pre);
    lemma_sum_bound(pre.push(d), q, Seq::empty());
}

/// With no message counted under `a`, its sums are 0.
pub proof fn lemma_agent_sum_absent(rows: Seq<MessageData>, a: Seq<char>, q: Qty)
    requires
        forall|k: int| 0 <= k < rows.len() ==> agent_of(#[trigger] rows[k]) != a,
    ensures
        agent_sum(rows, a, q) == 0,
    decreases rows.len(),
{
    reveal_with_fuel(agent_sum, 1);
    if rows.len() > 0 {
        assert(agent_of(rows[rows.len() - 1]) != a);
        assert forall|k: int| 0 <= k < rows.drop_last().len() implies agent_of(
            #[trigger] rows.drop_last()[k],
        ) != a by {
            assert(rows.drop_last()[k] == rows[k]);
        }
        lemma_agent_sum_absent(rows.drop_last(), a, q);
    }
}

/// Counts are positive for an agent some message is counted under.
pub proof fn lemma_agent_count_positive(rows: Seq<MessageData>, k: int)
    requires
        0 <= k < rows.len(),
    ensures
        agent_sum(rows, agent_of(rows[k]), Qty::One) > 0,
    decreases rows.len(),
{
    reveal_with_fuel(agent_sum, 1);
    let a = agent_of(rows[k]);
    lemma_sum_bound(rows.drop_last(), Qty::One, a);
    if k < rows.len() - 1 {
        assert(rows.drop_last()[k] == rows[k]);
        lemma_agent_count_positive(rows.drop_last(), k);
    }
    lemma_agent_count_nonneg(rows.drop_last(), a);
}

proof fn lemma_agent_count_nonneg(rows: Seq<MessageData>, a: Seq<char>)
    ensures
        agent_sum(rows, a, Qty::One) >= 0,
    decreases rows.len(),
{
    reveal_with_fuel(agent_sum, 1);
    if rows.len() > 0 {
        lemma_agent_count_nonneg(rows.drop_last(), a);
    }
}

// ───────────────────────── session statistics ─────────────────────────

/// Every total the statistics of `rows` hold fits in an `i64`: the machine
/// limit of the representation.
pub open spec fn stats_fit(rows: Seq<MessageData>) -> bool {
    &&& rows.len() <= i64::MAX
    &&& forall|q: Qty| i64::MIN <= #[trigger] sum_of(rows, q) <= i64::MAX
    &&& forall|a: Seq<char>, q: Qty|
        (q == Qty::One || q == Qty::TotalTokens || q == Qty::Cost) ==> i64::MIN <= #[trigger] agent_sum(rows, a, q)
            <= i64::MAX
}

/// No two entries name the same agent.
pub open spec fn agents_distinct(b: Seq<AgentBreakdown>) -> bool {
    forall|x: int, y: int|
        0 <= x < b.len() && 0 <= y < b.len() && x != y ==> #[trigger] b[x].agent@ != #[trigger] b[y].agent@
}

/// Entries are ordered by cost, from the highest.
pub open spec fn by_cost_desc(b: Seq<AgentBreakdown>) -> bool {
    forall|x: int, y: int| 0 <= x < y < b.len() ==> #[trigger] b[x].total_cost >= #[trigger] b[y].total_cost
}

/// An entry holds its agent's message count, tokens and cost over `rows`,
/// and the agent has messages.
pub open spec fn entry_of(rows: Seq<MessageData>, e: AgentBreakdown) -> bool {
    &&& e.message_count == agent_sum(rows, e.agent@, Qty::One)
    &&& e.total_tokens == agent_sum(rows, e.agent@, Qty::TotalTokens)
    &&& e.total_cost == agent_sum(rows, e.agent@, Qty::Cost)
    &&& e.message_count > 0
}

/// Whether `b` is the per-agent breakdown of `rows`: one entry for each agent
/// that some message is counted under, none twice, each with that agent's
/// message count, tokens and cost, ordered by cost from the highest.
pub open spec fn is_breakdown(rows: Seq<MessageData>, b: Seq<AgentBreakdown>) -> bool {
    &&& agents_distinct(b)
    &&& by_cost_desc(b)
    &&& forall|x: int| 0 <= x < b.len() ==> entry_of(rows, #[trigger] b[x])
    &&& forall|k: int| 0 <= k < rows.len() ==> has_agent(b, agent_of(#[trigger] rows[k]))
}

/// Some entry names agent `a`.
pub open spec fn has_agent(b: Seq<AgentBreakdown>, a: Seq<char>) -> bool {
    exists|x: int| 0 <= x < b.len() && #[trigger] b[x].agent@ == a
}

/// Whether `st` is the statistics of session `id` titled `title` with
/// messages `rows`.
pub open spec fn is_stats_of(st: SessionStats, id: Seq<char>, title: Seq<char>, rows: Seq<MessageData>) -> bool {
    &&& st.session_id@ == id
    &&& st.session_title@ == title
    &&& st.total_messages == rows.len()
    &&& st.user_messages == role_count(rows, "user"@)
    &&& st.assistant_messages == role_count(rows, "assistant"@)
    &&& st.total_tokens == sum_of(rows, Qty::TotalTokens)
    &&& st.input_tokens == sum_of(rows, Qty::InputTokens)
    &&& st.output_tokens == sum_of(rows, Qty::OutputTokens)
    &&& st.reasoning_tokens == sum_of(rows, Qty::ReasoningTokens)
    &&& st.cache_write == sum_of(rows, Qty::CacheWrite)
    &&& st.cache_read == sum_of(rows, Qty::CacheRead)
    &&& st.total_cost == sum_of(rows, Qty::Cost)
    &&& is_breakdown(rows, st.agent_breakdown@)
}

/// Session statistics add up message by message: with no message every
/// count and sum is 0; one more message adds one to the message count, one
/// to the count of its role when it is the user's or the assistant's, each
/// of its own token counts to the sum of that kind, and its own cost to the
/// total cost (0 for what it does not have).
pub proof fn law_stats_add_up_message_by_message(
    st0: SessionStats,
    st1: SessionStats,
    st2: SessionStats,
    id: Seq<char>,
    title: Seq<char>,
    rows: Seq<MessageData>,
    d: MessageData,
)
    requires
        is_stats_of(st0, id, title, Seq::empty()),
        is_stats_of(st1, id, title, rows),
        is_stats_of(st2, id, title, rows.push(d)),
    ensures
        st0.total_messages == 0 && st0.user_messages == 0 && st0.assistant_messages == 0,
        st0.total_tokens == 0 && st0.input_tokens == 0 && st0.output_tokens == 0 && st0.reasoning_tokens == 0,
        st0.cache_write == 0 && st0.cache_read == 0 && st0.total_cost == 0,
        ({
            let v = |o: Option<i64>| -> int {
                match o {
                    Some(x) => x as int,
                    None => 0,
                }
            };
            let (total, input, output, reasoning, write, read) = match d.tokens {
                Some(t) => (v(t.total), v(t.input), v(t.output), v(t.reasoning), match t.cache {
                    Some(c) => v(c.write),
                    None => 0,
                }, match t.cache {
                    Some(c) => v(c.read),
                    None => 0,
                }),
                None => (0, 0, 0, 0, 0, 0),
            };
            &&& st2.total_messages == st1.total_messages + 1
            &&& st2.user_messages == st1.user_messages + if d.role@ == "user"@ { 1int } else { 0 }
            &&& st2.assistant_messages == st1.assistant_messages + if d.role@ == "assistant"@ { 1int } else { 0 }
            &&& st2.total_tokens == st1.total_tokens + total
            &&& st2.input_tokens == st1.input_tokens + input
            &&& st2.output_tokens == st1.output_tokens + output
            &&& st2.reasoning_tokens == st1.reasoning_tokens + reasoning
            &&& st2.cache_write == st1.cache_write + write
            &&& st2.cache_read == st1.cache_read + read
            &&& st2.total_cost == st1.total_cost + v(d.cost)
        }),
{
    reveal(sum_of);
    reveal(role_count);
    assert(rows.push(d).drop_last() =~= rows);
}

fn opt_val(o: Option<i64>) -> (r: i64)
    ensures
        r == opt_count(o),
{
    match o {
        Some(v) => v,
        None => 0,
    }
}

/// The per-message quantities the totals add up.
fn quantities(d: &MessageData) -> (r: (i64, i64, i64, i64, i64, i64, i64))
    ensures
        r.0 == total_tokens_of(*d),
        r.1 == input_tokens_of(*d),
        r.2 == output_tokens_of(*d),
        r.3 == reasoning_tokens_of(*d),
        r.4 == cache_write_of(*d),
        r.5 == cache_read_of(*d),
        r.6 == cost_of(*d),
{
    let c = opt_val(d.cost);
    match &d.tokens {
        Some(t) => {
            let (w, rd) = match &t.cache {
                Some(cc) => (opt_val(cc.write), opt_val(cc.read)),
                None => (0, 0),
            };
            (opt_val(t.total), opt_val(t.input), opt_val(t.output), opt_val(t.reasoning), w, rd, c)
        },
        None => (0, 0, 0, 0, 0, 0, c),
    }
}

/// The agent name a message is counted under.
fn agent_name(d: &MessageData) -> (r: String)
    ensures
        r@ == agent_of(*d),
{
    match &d.agent {
        Some(a) => a.clone(),
        None => String::from_str("unknown"),
    }
}

/// Per-agent running totals, in the order the agents first appear.
struct Tally {
    agent: String,
    count: i128,
    tokens: i128,
    cost: i128,
}

spec fn tally_ok(rows: Seq<MessageData>, t: Seq<Tally>) -> bool {
    &&& forall|i: int, j: int|
        0 <= i < t.len() && 0 <= j < t.len() && i != j ==> #[trigger] t[i].agent@ != #[trigger] t[j].agent@
    &&& forall|i: int|
        0 <= i < t.len() ==> {
            let a = #[trigger] t[i].agent@;
            &&& t[i].count == agent_sum(rows, a, Qty::One)
            &&& t[i].tokens == agent_sum(rows, a, Qty::TotalTokens)
            &&& t[i].cost == agent_sum(rows, a, Qty::Cost)
            &&& t[i].count > 0
        }
    &&& forall|k: int| 0 <= k < rows.len() ==> tallied(t, agent_of(#[trigger] rows[k]))
}

spec fn tallied(t: Seq<Tally>, a: Seq<char>) -> bool {
    exists|i: int| 0 <= i < t.len() && #[trigger] t[i].agent@ == a
}

/// The index of the totals of agent `name`, if it has any yet.
fn find_tally(tallies: &Vec<Tally>, name: &String) -> (r: Option<usize>)
    ensures
        match r {
            Some(i) => i < tallies@.len() && tallies@[i as int].agent@ == name@,
            None => forall|j: int| 0 <= j < tallies@.len() ==> #[trigger] tallies@[j].agent@ != name@,
        },
{
    let mut i: usize = 0;
    while i < tallies.len()
        invariant
            i <= tallies@.len(),
            forall|j: int| 0 <= j < i ==> #[trigger] tallies@[j].agent@ != name@,
        decreases tallies@.len() - i,
    {
        if str_eq(tallies[i].agent.as_str(), name.as_str()) {
            return Some(i);
        }
        i = i + 1;
    }
    None
}

/// Adding one message changes the sums of its own agent only.
proof fn lemma_agent_sum_push(pre: Seq<MessageData>, d: MessageData, b: Seq<char>, q: Qty)
    ensures
        agent_sum(pre.push(d), b, q) == agent_sum(pre, b, q) + if agent_of(d) == b {
            qty(q, d)
        } else {
            0
        },
{
    reveal_with_fuel(agent_sum, 1);
    assert(pre.push(d).drop_last() =~= pre);
}

/// Updating the totals of the message's agent keeps the totals right.
proof fn lemma_tally_update(pre: Seq<MessageData>, d: MessageData, before: Seq<Tally>, i: int, t2: Seq<Tally>)
    requires
        tally_ok(pre, before),
        0 <= i < before.len(),
        before[i].agent@ == agent_of(d),
        t2.len() == before.len(),
        forall|x: int| 0 <= x < before.len() && x != i ==> t2[x] == before[x],
        t2[i].agent@ == agent_of(d),
        t2[i].count == before[i].count + 1,
        t2[i].tokens == before[i].tokens + total_tokens_of(d),
        t2[i].cost == before[i].cost + cost_of(d),
    ensures
        tally_ok(pre.push(d), t2),
{
    let now = pre.push(d);
    assert(now.drop_last() =~= pre);
    assert forall|x: int, y: int|
        0 <= x < t2.len() && 0 <= y < t2.len() && x != y implies #[trigger] t2[x].agent@ != #[trigger] t2[y].agent@ by {
        assert(t2[x].agent@ == before[x].agent@);
        assert(t2[y].agent@ == before[y].agent@);
    }
    assert forall|x: int| 0 <= x < t2.len() implies {
        let b = #[trigger] t2[x].agent@;
        &&& t2[x].count == agent_sum(now, b, Qty::One)
        &&& t2[x].tokens == agent_sum(now, b, Qty::TotalTokens)
        &&& t2[x].cost == agent_sum(now, b, Qty::Cost)
        &&& t2[x].count > 0
    } by {
        let b = t2[x].agent@;
        lemma_agent_sum_push(pre, d, b, Qty::One);
        lemma_agent_sum_push(pre, d, b, Qty::TotalTokens);
        lemma_agent_sum_push(pre, d, b, Qty::Cost);
        if x != i {
            assert(t2[x] == before[x]);
            assert(before[x].agent@ != before[i].agent@);
        }
    }
    assert forall|k: int| 0 <= k < now.len() implies tallied(t2, agent_of(#[trigger] now[k])) by {
        if k < pre.len() {
            assert(now[k] == pre[k]);
            assert(tallied(before, agent_of(pre[k])));
            let x = choose|x: int| 0 <= x < before.len() && #[trigger] before[x].agent@ == agent_of(pre[k]);
            assert(t2[x].agent@ == before[x].agent@);
        } else {
            assert(t2[i].agent@ == agent_of(now[k]));
        }
    }
}

/// Adding totals for a new agent keeps the totals right.
proof fn lemma_tally_new(pre: Seq<MessageData>, d: MessageData, before: Seq<Tally>, t: Tally)
    requires
        tally_ok(pre, before),
        forall|j: int| 0 <= j < before.len() ==> #[trigger] before[j].agent@ != agent_of(d),
        t.agent@ == agent_of(d),
        t.count == 1,
        t.tokens == total_tokens_of(d),
        t.cost == cost_of(d),
    ensures
        tally_ok(pre.push(d), before.push(t)),
{
    let now = pre.push(d);
    let t2 = before.push(t);
    let a = agent_of(d);
    let n0 = before.len() as int;
    assert(now.drop_last() =~= pre);
    assert forall|k: int| 0 <= k < pre.len() implies agent_of(#[trigger] pre[k]) != a by {
        assert(tallied(before, agent_of(pre[k])));
        let x = choose|x: int| 0 <= x < before.len() && #[trigger] before[x].agent@ == agent_of(pre[k]);
    }
    lemma_agent_sum_absent(pre, a, Qty::One);
    lemma_agent_sum_absent(pre, a, Qty::TotalTokens);
    lemma_agent_sum_absent(pre, a, Qty::Cost);
    assert forall|x: int, y: int|
        0 <= x < t2.len() && 0 <= y < t2.len() && x != y implies #[trigger] t2[x].agent@ != #[trigger] t2[y].agent@ by {
        if x < n0 && y < n0 {
            assert(t2[x] == before[x] && t2[y] == before[y]);
        } else if x < n0 {
            assert(t2[x] == before[x]);
        } else if y < n0 {
            assert(t2[y] == before[y]);
        }
    }
    assert forall|x: int| 0 <= x < t2.len() implies {
        let b = #[trigger] t2[x].agent@;
        &&& t2[x].count == agent_sum(now, b, Qty::One)
        &&& t2[x].tokens == agent_sum(now, b, Qty::TotalTokens)
        &&& t2[x].cost == agent_sum(now, b, Qty::Cost)
        &&& t2[x].count > 0
    } by {
        let b = t2[x].agent@;
        lemma_agent_sum_push(pre, d, b, Qty::One);
        lemma_agent_sum_push(pre, d, b, Qty::TotalTokens);
        lemma_agent_sum_push(pre, d, b, Qty::Cost);
        if x < n0 {
            assert(t2[x] == before[x]);
        }
    }
    assert forall|k: int| 0 <= k < now.len() implies tallied(t2, agent_of(#[trigger] now[k])) by {
        if k < pre.len() {
            assert(now[k] == pre[k]);
            assert(tallied(before, agent_of(pre[k])));
            let x = choose|x: int| 0 <= x < before.len() && #[trigger] before[x].agent@ == agent_of(pre[k]);
            assert(t2[x] == before[x]);
        } else {
            assert(t2[n0].agent@ == agent_of(now[k]));
        }
    }
}

/// Adds message `d`, which follows `pre`, to the per-agent totals.
fn tally_message(tallies: &mut Vec<Tally>, d: &MessageData, Ghost(pre): Ghost<Seq<MessageData>>)
    requires
        tally_ok(pre, old(tallies)@),
        pre.len() + 1 <= 0xffff_ffff_ffff_ffff,
    ensures
        tally_ok(pre.push(*d), final(tallies)@),
{
    let ghost before = tallies@;
    let name = agent_name(d);
    let q = quantities(d);
    match find_tally(tallies, &name) {
        Some(i) => {
            proof {
                let a = agent_of(*d);
                let now = pre.push(*d);
                assert(before[i as int].agent@ == a);
                lemma_sum_bound(now, Qty::One, a);
                lemma_sum_bound(now, Qty::TotalTokens, a);
                lemma_sum_bound(now, Qty::Cost, a);
                lemma_agent_sum_push(pre, *d, a, Qty::One);
                lemma_agent_sum_push(pre, *d, a, Qty::TotalTokens);
                lemma_agent_sum_push(pre, *d, a, Qty::Cost);
            }
            let t = Tally {
                agent: name,
                count: tallies[i].count + 1,
                tokens: tallies[i].tokens + q.0 as i128,
                cost: tallies[i].cost + q.6 as i128,
            };
            tallies.set(i, t);
            proof {
                lemma_tally_update(pre, *d, before, i as int, tallies@);
            }
        },
        None => {
            let t = Tally { agent: name, count: 1, tokens: q.0 as i128, cost: q.6 as i128 };
            proof {
                lemma_tally_new(pre, *d, before, t);
            }
            tallies.push(t);
        },
    }
}

spec fn bd_values(rows: Seq<MessageData>, out: Seq<AgentBreakdown>) -> bool {
    forall|x: int| 0 <= x < out.len() ==> entry_of(rows, #[trigger] out[x])
}

spec fn bd_from(tallies: Seq<Tally>, i: int, out: Seq<AgentBreakdown>) -> bool {
    forall|x: int, j: int|
        0 <= x < out.len() && i <= j < tallies.len() ==> #[trigger] tallies[j].agent@ != #[trigger] out[x].agent@
}

spec fn bd_covers(tallies: Seq<Tally>, i: int, out: Seq<AgentBreakdown>) -> bool {
    forall|j: int| 0 <= j < i ==> has_agent(out, #[trigger] tallies[j].agent@)
}

/// The breakdown built from the first `i` agents' totals: what the sorting
/// loop keeps.
spec fn partial_breakdown(rows: Seq<MessageData>, tallies: Seq<Tally>, i: int, out: Seq<AgentBreakdown>) -> bool {
    &&& agents_distinct(out)
    &&& by_cost_desc(out)
    &&& bd_values(rows, out)
    &&& bd_from(tallies, i, out)
    &&& bd_covers(tallies, i, out)
}

proof fn lemma_ins_index(before: Seq<AgentBreakdown>, p: int, entry: AgentBreakdown)
    requires
        0 <= p <= before.len(),
    ensures
        before.insert(p, entry).len() == before.len() + 1,
        forall|x: int| 0 <= x < p ==> #[trigger] before.insert(p, entry)[x] == before[x],
        forall|x: int| p < x <= before.len() ==> #[trigger] before.insert(p, entry)[x] == before[x - 1],
        before.insert(p, entry)[p] == entry,
{
    before.insert_ensures(p, entry);
    assert forall|x: int| p < x <= before.len() implies #[trigger] before.insert(p, entry)[x] == before[x - 1] by {
        assert(before.insert(p, entry)[(x - 1) + 1] == before[x - 1]);
    }
}

proof fn lemma_ins_unique(before: Seq<AgentBreakdown>, p: int, entry: AgentBreakdown)
    requires
        0 <= p <= before.len(),
        agents_distinct(before),
        forall|x: int| 0 <= x < before.len() ==> #[trigger] before[x].agent@ != entry.agent@,
    ensures
        agents_distinct(before.insert(p, entry)),
{
    let o = before.insert(p, entry);
    lemma_ins_index(before, p, entry);
    assert forall|x: int, y: int|
        0 <= x < o.len() && 0 <= y < o.len() && x != y implies #[trigger] o[x].agent@ != #[trigger] o[y].agent@ by {
        let bx = if x < p { x } else { x - 1 };
        let by_ = if y < p { y } else { y - 1 };
        if x != p {
            assert(o[x] == before[bx]);
        }
        if y != p {
            assert(o[y] == before[by_]);
        }
    }
}

proof fn lemma_ins_sorted(before: Seq<AgentBreakdown>, p: int, entry: AgentBreakdown)
    requires
        0 <= p <= before.len(),
        by_cost_desc(before),
        forall|x: int| 0 <= x < p ==> #[trigger] before[x].total_cost >= entry.total_cost,
        p < before.len() ==> before[p].total_cost < entry.total_cost,
    ensures
        by_cost_desc(before.insert(p, entry)),
{
    let o = before.insert(p, entry);
    lemma_ins_index(before, p, entry);
    assert forall|x: int, y: int| 0 <= x < y < o.len() implies #[trigger] o[x].total_cost >= #[trigger] o[y].total_cost by {
        if y < p {
            assert(o[x] == before[x] && o[y] == before[y]);
        } else if y == p {
            assert(o[x] == before[x]);
        } else if x < p {
            assert(o[x] == before[x] && o[y] == before[y - 1]);
        } else if x == p {
            assert(o[y] == before[y - 1]);
            if y - 1 > p {
                assert(before[p].total_cost >= before[y - 1].total_cost);
            }
        } else {
            assert(o[x] == before[x - 1] && o[y] == before[y - 1]);
        }
    }
}

proof fn lemma_ins_values(rows: Seq<MessageData>, before: Seq<AgentBreakdown>, p: int, entry: AgentBreakdown)
    requires
        0 <= p <= before.len(),
        bd_values(rows, before),
        entry_of(rows, entry),
    ensures
        bd_values(rows, before.insert(p, entry)),
{
    let o = before.insert(p, entry);
    lemma_ins_index(before, p, entry);
    assert forall|x: int| 0 <= x < o.len() implies entry_of(rows, #[trigger] o[x]) by {
        if x < p {
            assert(o[x] == before[x]);
        } else if x > p {
            assert(o[x] == before[x - 1]);
        }
    }
}

proof fn lemma_ins_from(tallies: Seq<Tally>, i: int, before: Seq<AgentBreakdown>, p: int, entry: AgentBreakdown)
    requires
        0 <= i < tallies.len(),
        0 <= p <= before.len(),
        bd_from(tallies, i, before),
        entry.agent@ == tallies[i].agent@,
        forall|x: int, y: int|
            0 <= x < tallies.len() && 0 <= y < tallies.len() && x != y ==> #[trigger] tallies[x].agent@
                != #[trigger] tallies[y].agent@,
    ensures
        bd_from(tallies, i + 1, before.insert(p, entry)),
{
    let o = before.insert(p, entry);
    lemma_ins_index(before, p, entry);
    assert forall|x: int, j: int| 0 <= x < o.len() && i + 1 <= j < tallies.len() implies #[trigger] tallies[j].agent@
        != #[trigger] o[x].agent@ by {
        if x == p {
            assert(tallies[j].agent@ != tallies[i].agent@);
        } else {
            let bx = if x < p { x } else { x - 1 };
            assert(o[x] == before[bx]);
            assert(tallies[j].agent@ != before[bx].agent@);
        }
    }
}

proof fn lemma_ins_covers(tallies: Seq<Tally>, i: int, before: Seq<AgentBreakdown>, p: int, entry: AgentBreakdown)
    requires
        0 <= i < tallies.len(),
        0 <= p <= before.len(),
        bd_covers(tallies, i, before),
        entry.agent@ == tallies[i].agent@,
    ensures
        bd_covers(tallies, i + 1, before.insert(p, entry)),
{
    let o = before.insert(p, entry);
    lemma_ins_index(before, p, entry);
    assert forall|j: int| 0 <= j < i + 1 implies has_agent(o, #[trigger] tallies[j].agent@) by {
        if j < i {
            assert(has_agent(before, tallies[j].agent@));
            let x = choose|x: int| 0 <= x < before.len() && #[trigger] before[x].agent@ == tallies[j].agent@;
            if x < p {
                assert(o[x] == before[x]);
            } else {
                assert(o[x + 1] == before[x]);
            }
        } else {
            assert(o[p] == entry);
        }
    }
}

proof fn lemma_insert_entry(
    rows: Seq<MessageData>,
    tallies: Seq<Tally>,
    i: int,
    before: Seq<AgentBreakdown>,
    p: int,
    entry: AgentBreakdown,
)
    requires
        tally_ok(rows, tallies),
        0 <= i < tallies.len(),
        partial_breakdown(rows, tallies, i, before),
        entry.agent@ == tallies[i].agent@,
        entry_of(rows, entry),
        0 <= p <= before.len(),
        forall|x: int| 0 <= x < p ==> #[trigger] before[x].total_cost >= entry.total_cost,
        p < before.len() ==> before[p].total_cost < entry.total_cost,
    ensures
        partial_breakdown(rows, tallies, i + 1, before.insert(p, entry)),
{
    assert forall|x: int| 0 <= x < before.len() implies #[trigger] before[x].agent@ != entry.agent@ by {
        assert(tallies[i].agent@ != before[x].agent@);
    }
    lemma_ins_unique(before, p, entry);
    lemma_ins_sorted(before, p, entry);
    lemma_ins_values(rows, before, p, entry);
    lemma_ins_from(tallies, i, before, p, entry);
    lemma_ins_covers(tallies, i, before, p, entry);
}

proof fn lemma_breakdown_done(rows: Seq<MessageData>, tallies: Seq<Tally>, out: Seq<AgentBreakdown>)
    requires
        tally_ok(rows, tallies),
        partial_breakdown(rows, tallies, tallies.len() as int, out),
    ensures
        is_breakdown(rows, out),
{
    assert forall|k: int| 0 <= k < rows.len() implies has_agent(out, agent_of(#[trigger] rows[k])) by {
        assert(tallied(tallies, agent_of(rows[k])));
        let j = choose|j: int| 0 <= j < tallies.len() && #[trigger] tallies[j].agent@ == agent_of(rows[k]);
        assert(has_agent(out, tallies[j].agent@));
    }
}

/// The index before which `entry` goes to keep `out` ordered by cost from
/// the highest, after every entry of equal cost.
fn insert_position(out: &Vec<AgentBreakdown>, cost: i64) -> (p: usize)
    requires
        forall|x: int, y: int| 0 <= x < y < out@.len() ==> #[trigger] out@[x].total_cost >= #[trigger] out@[y].total_cost,
    ensures
        p <= out@.len(),
        forall|x: int| 0 <= x < p ==> #[trigger] out@[x].total_cost >= cost,
        p < out@.len() ==> out@[p as int].total_cost < cost,
{
    let mut p: usize = 0;
    while p < out.len() && out[p].total_cost >= cost
        invariant
            p <= out@.len(),
            forall|x: int| 0 <= x < p ==> #[trigger] out@[x].total_cost >= cost,
        decreases out@.len() - p,
    {
        p = p + 1;
    }
    p
}

/// The per-agent totals as breakdown entries ordered by cost from the
/// highest; agents of equal cost keep the order they first appeared in.
fn sorted_breakdown(tallies: Vec<Tally>, Ghost(rows): Ghost<Seq<MessageData>>) -> (out: Vec<AgentBreakdown>)
    requires
        tally_ok(rows, tallies@),
        stats_fit(rows),
    ensures
        is_breakdown(rows, out@),
{
    let mut out: Vec<AgentBreakdown> = Vec::new();
    let n = tallies.len();
    let mut i: usize = 0;
    while i < n
        invariant
            i <= n,
            n == tallies@.len(),
            tally_ok(rows, tallies@),
            stats_fit(rows),
            partial_breakdown(rows, tallies@, i as int, out@),
        decreases n - i,
    {
        let t = &tallies[i];
        let ghost a = t.agent@;
        proof {
            assert(i64::MIN <= agent_sum(rows, a, Qty::One) <= i64::MAX);
            assert(i64::MIN <= agent_sum(rows, a, Qty::TotalTokens) <= i64::MAX);
            assert(i64::MIN <= agent_sum(rows, a, Qty::Cost) <= i64::MAX);
        }
        let entry = AgentBreakdown {
            agent: t.agent.clone(),
            message_count: t.count as i64,
            total_tokens: t.tokens as i64,
            total_cost: t.cost as i64,
        };
        let p = insert_position(&out, entry.total_cost);
        proof {
            assert(entry_of(rows, entry));
            lemma_insert_entry(rows, tallies@, i as int, out@, p as int, entry);
        }
        out.insert(p, entry);
        i = i + 1;
    }
    proof {
        lemma_breakdown_done(rows, tallies@, out@);
    }
    out
}

/// Running totals over the messages seen so far.
struct Totals {
    users: i128,
    assistants: i128,
    total: i128,
    input: i128,
    output: i128,
    reasoning: i128,
    cache_write: i128,
    cache_read: i128,
    cost: i128,
}

spec fn totals_ok(rows: Seq<MessageData>, t: Totals) -> bool {
    &&& t.users == role_count(rows, "user"@)
    &&& t.assistants == role_count(rows, "assistant"@)
    &&& t.total == sum_of(rows, Qty::TotalTokens)
    &&& t.input == sum_of(rows, Qty::InputTokens)
    &&& t.output == sum_of(rows, Qty::OutputTokens)
    &&& t.reasoning == sum_of(rows, Qty::ReasoningTokens)
    &&& t.cache_write == sum_of(rows, Qty::CacheWrite)
    &&& t.cache_read == sum_of(rows, Qty::CacheRead)
    &&& t.cost == sum_of(rows, Qty::Cost)
}

impl Totals {
    fn add(&mut self, d: &MessageData, Ghost(pre): Ghost<Seq<MessageData>>)
        requires
            totals_ok(pre, *old(self)),
            pre.len() + 1 <= 0xffff_ffff_ffff_ffff,
        ensures
            totals_ok(pre.push(*d), *final(self)),
    {
        proof {
            lemma_sum_push(pre, *d, Qty::TotalTokens);
            lemma_sum_push(pre, *d, Qty::InputTokens);
            lemma_sum_push(pre, *d, Qty::OutputTokens);
            lemma_sum_push(pre, *d, Qty::ReasoningTokens);
            lemma_sum_push(pre, *d, Qty::CacheWrite);
            lemma_sum_push(pre, *d, Qty::CacheRead);
            lemma_sum_push(pre, *d, Qty::Cost);
            lemma_role_count_bound(pre, "user"@);
            lemma_role_count_bound(pre, "assistant"@);
            lemma_role_push(pre, *d, "user"@);
            lemma_role_push(pre, *d, "assistant"@);
            reveal_strlit("user");
            reveal_strlit("assistant");
            assert("user"@.len() != "assistant"@.len());
        }
        if str_eq(d.role.as_str(), "user") {
            self.users = self.users + 1;
        } else if str_eq(d.role.as_str(), "assistant") {
            self.assistants = self.assistants + 1;
        }
        let q = quantities(d);
        self.total = self.total + q.0 as i128;
        self.input = self.input + q.1 as i128;
        self.output = self.output + q.2 as i128;
        self.reasoning = self.reasoning + q.3 as i128;
        self.cache_write = self.cache_write + q.4 as i128;
        self.cache_read = self.cache_read + q.5 as i128;
        self.cost = self.cost + q.6 as i128;
    }
}

/// The statistics of session `session_id`, titled `title`, whose messages
/// are `rows` (see [`is_stats_of`]).
pub fn session_stats(session_id: &str, title: String, rows: &Vec<MessageData>) -> (st: SessionStats)
    requires
        stats_fit(rows@),
    ensures
        is_stats_of(st, session_id@, title@, rows@),
{
    let totals = row_sums(rows);
    let tallies = row_tallies(rows);
    let n = rows.len();
    proof {
        assert(i64::MIN <= sum_of(rows@, Qty::TotalTokens) <= i64::MAX);
        assert(i64::MIN <= sum_of(rows@, Qty::InputTokens) <= i64::MAX);
        assert(i64::MIN <= sum_of(rows@, Qty::OutputTokens) <= i64::MAX);
        assert(i64::MIN <= sum_of(rows@, Qty::ReasoningTokens) <= i64::MAX);
        assert(i64::MIN <= sum_of(rows@, Qty::CacheWrite) <= i64::MAX);
        assert(i64::MIN <= sum_of(rows@, Qty::CacheRead) <= i64::MAX);
        assert(i64::MIN <= sum_of(rows@, Qty::Cost) <= i64::MAX);
        lemma_role_count_bound(rows@, "user"@);
        lemma_role_count_bound(rows@, "assistant"@);
    }
    let agent_breakdown = sorted_breakdown(tallies, Ghost(rows@));
    SessionStats {
        session_id: String::from_str(session_id),
        session_title: title,
        total_messages: n as i64,
        user_messages: totals.users as i64,
        assistant_messages: totals.assistants as i64,
        total_tokens: totals.total as i64,
        input_tokens: totals.input as i64,
        output_tokens: totals.output as i64,
        reasoning_tokens: totals.reasoning as i64,
        cache_write: totals.cache_write as i64,
        cache_read: totals.cache_read as i64,
        total_cost: totals.cost as i64,
        agent_breakdown,
    }
}

/// The running sums of the messages.
fn row_sums(rows: &Vec<MessageData>) -> (t: Totals)
    ensures
        totals_ok(rows@, t),
{
    let mut totals = Totals {
        users: 0,
        assistants: 0,
        total: 0,
        input: 0,
        output: 0,
        reasoning: 0,
        cache_write: 0,
        cache_read: 0,
        cost: 0,
    };
    let n = rows.len();
    let mut k: usize = 0;
    proof {
        lemma_sums_empty(rows@.take(0));
    }
    while k < n
        invariant
            k <= n,
            n == rows@.len(),
            totals_ok(rows@.take(k as int), totals),
        decreases n - k,
    {
        let d = &rows[k];
        let ghost pre = rows@.take(k as int);
        proof {
            assert(pre.push(*d) =~= rows@.take(k + 1));
        }
        totals.add(d, Ghost(pre));
        k = k + 1;
    }
    assert(rows@.take(n as int) =~= rows@);
    totals
}

/// The per-agent running totals of the messages.
fn row_tallies(rows: &Vec<MessageData>) -> (t: Vec<Tally>)
    ensures
        tally_ok(rows@, t@),
{
    let mut tallies: Vec<Tally> = Vec::new();
    let n = rows.len();
    let mut k: usize = 0;
    proof {
        lemma_sums_empty(rows@.take(0));
    }
    while k < n
        invariant
            k <= n,
            n == rows@.len(),
            tally_ok(rows@.take(k as int), tallies@),
        decreases n - k,
    {
        let d = &rows[k];
        let ghost pre = rows@.take(k as int);
        proof {
            assert(pre.push(*d) =~= rows@.take(k + 1));
        }
        tally_message(&mut tallies, d, Ghost(pre));
        k = k + 1;
    }
    assert(rows@.take(n as int) =~= rows@);
    tallies
}

/// Whether a sum fits in an `i64`.
fn fits_i64(x: i128) -> (r: bool)
    ensures
        r == (i64::MIN <= x <= i64::MAX),
{
    -0x8000_0000_0000_0000i128 <= x && x <= 0x7fff_ffff_ffff_ffffi128
}

/// Whether every sum the statistics of `rows` hold fits in an `i64` (see
/// [`stats_fit`]).
pub fn stats_in_range(rows: &Vec<MessageData>) -> (r: bool)
    ensures
        r == stats_fit(rows@),
{
    let t = row_sums(rows);
    let tallies = row_tallies(rows);
    proof {
        lemma_sum_of_ones(rows@);
    }
    let len_ok = rows.len() as u64 <= 0x7fff_ffff_ffff_ffffu64;
    let sums_ok = fits_i64(t.total) && fits_i64(t.input) && fits_i64(t.output) && fits_i64(t.reasoning)
        && fits_i64(t.cache_write) && fits_i64(t.cache_read) && fits_i64(t.cost);
    if !len_ok || !sums_ok {
        proof {
            if !len_ok {
                assert(!(rows@.len() <= i64::MAX));
            } else if !(i64::MIN <= t.total <= i64::MAX) {
                assert(!(i64::MIN <= sum_of(rows@, Qty::TotalTokens) <= i64::MAX));
            } else if !(i64::MIN <= t.input <= i64::MAX) {
                assert(!(i64::MIN <= sum_of(rows@, Qty::InputTokens) <= i64::MAX));
            } else if !(i64::MIN <= t.output <= i64::MAX) {
                assert(!(i64::MIN <= sum_of(rows@, Qty::OutputTokens) <= i64::MAX));
            } else if !(i64::MIN <= t.reasoning <= i64::MAX) {
                assert(!(i64::MIN <= sum_of(rows@, Qty::ReasoningTokens) <= i64::MAX));
            } else if !(i64::MIN <= t.cache_write <= i64::MAX) {
                assert(!(i64::MIN <= sum_of(rows@, Qty::CacheWrite) <= i64::MAX));
            } else if !(i64::MIN <= t.cache_read <= i64::MAX) {
                assert(!(i64::MIN <= sum_of(rows@, Qty::CacheRead) <= i64::MAX));
            } else {
                assert(!(i64::MIN <= sum_of(rows@, Qty::Cost) <= i64::MAX));
            }
        }
        return false;
    }
    let mut i: usize = 0;
    while i < tallies.len()
        invariant
            i <= tallies@.len(),
            tally_ok(rows@, tallies@),
            forall|j: int|
                0 <= j < i ==> fits_all(#[trigger] tallies@[j]),
        decreases tallies@.len() - i,
    {
        if !(fits_i64(tallies[i].count) && fits_i64(tallies[i].tokens) && fits_i64(tallies[i].cost)) {
            proof {
                let a = tallies@[i as int].agent@;
                if !(i64::MIN <= tallies@[i as int].count <= i64::MAX) {
                    assert(!(i64::MIN <= agent_sum(rows@, a, Qty::One) <= i64::MAX));
                } else if !(i64::MIN <= tallies@[i as int].tokens <= i64::MAX) {
                    assert(!(i64::MIN <= agent_sum(rows@, a, Qty::TotalTokens) <= i64::MAX));
                } else {
                    assert(!(i64::MIN <= agent_sum(rows@, a, Qty::Cost) <= i64::MAX));
                }
            }
            return false;
        }
        i = i + 1;
    }
    proof {
        assert forall|q: Qty| i64::MIN <= #[trigger] sum_of(rows@, q) <= i64::MAX by {
            match q {
                Qty::One => {},
                _ => {},
            }
        }
        assert forall|a: Seq<char>, q: Qty|
            (q == Qty::One || q == Qty::TotalTokens || q == Qty::Cost) implies i64::MIN <= #[trigger] agent_sum(
                rows@,
                a,
                q,
            ) <= i64::MAX by {
            if tallied(tallies@, a) {
                let j = choose|j: int| 0 <= j < tallies@.len() && #[trigger] tallies@[j].agent@ == a;
                assert(fits_all(tallies@[j]));
            } else {
                assert forall|k: int| 0 <= k < rows@.len() implies agent_of(#[trigger] rows@[k]) != a by {
                    assert(tallied(tallies@, agent_of(rows@[k])));
                }
                lemma_agent_sum_absent(rows@, a, q);
            }
        }
    }
    true
}

spec fn fits_all(t: Tally) -> bool {
    &&& i64::MIN <= t.count <= i64::MAX
    &&& i64::MIN <= t.tokens <= i64::MAX
    &&& i64::MIN <= t.cost <= i64::MAX
}

/// The statistics of session `session_id` titled `title` with messages
/// `rows` (see [`is_stats_of`]), or `None` when one of their sums does not
/// fit in an `i64`.
pub fn try_session_stats(session_id: &str, title: String, rows: &Vec<MessageData>) -> (r: Option<SessionStats>)
    ensures
        r is Some <==> stats_fit(rows@),
        r matches Some(st) ==> is_stats_of(st, session_id@, title@, rows@),
{
    if stats_in_range(rows) {
        Some(session_stats(session_id, title, rows))
    } else {
        None
    }
}

// ───────────────────────── totals of message lists ─────────────────────────

/// The message data of messages with their parts.
pub open spec fn datas(msgs: Seq<MessageWithParts>) -> Seq<MessageData> {
    Seq::new(msgs.len(), |i: int| msgs[i].message.data)
}

/// The totals that fit in an `i64` (the machine limit of the representation).
pub open spec fn totals_fit(rows: Seq<MessageData>) -> bool {
    &&& i64::MIN <= sum_of(rows, Qty::TotalTokens) <= i64::MAX
    &&& i64::MIN <= sum_of(rows, Qty::InputTokens) <= i64::MAX
    &&& i64::MIN <= sum_of(rows, Qty::OutputTokens) <= i64::MAX
    &&& i64::MIN <= sum_of(rows, Qty::Cost) <= i64::MAX
}

/// Counts and sums over a list of messages.
pub struct MessageTotals {
    pub messages: usize,
    pub user_messages: usize,
    pub assistant_messages: usize,
    pub total_tokens: i64,
    pub input_tokens: i64,
    pub output_tokens: i64,
    /// In millionths of a dollar.
    pub total_cost: i64,
}

/// Whether `t` holds the counts and sums of `rows`.
pub open spec fn is_totals_of(t: MessageTotals, rows: Seq<MessageData>) -> bool {
    &&& t.messages == rows.len()
    &&& t.user_messages == role_count(rows, "user"@)
    &&& t.assistant_messages == role_count(rows, "assistant"@)
    &&& t.total_tokens == sum_of(rows, Qty::TotalTokens)
    &&& t.input_tokens == sum_of(rows, Qty::InputTokens)
    &&& t.output_tokens == sum_of(rows, Qty::OutputTokens)
    &&& t.total_cost == sum_of(rows, Qty::Cost)
}

/// The message count, the counts by role and the token and cost sums of
/// `msgs`.
pub fn message_totals(msgs: &Vec<MessageWithParts>) -> (t: MessageTotals)
    requires
        totals_fit(datas(msgs@)),
    ensures
        is_totals_of(t, datas(msgs@)),
{
    let ghost rows = datas(msgs@);
    let totals = message_sums(msgs);
    let n = msgs.len();
    proof {
        lemma_role_count_bound(rows, "user"@);
        lemma_role_count_bound(rows, "assistant"@);
    }
    MessageTotals {
        messages: n,
        user_messages: totals.users as usize,
        assistant_messages: totals.assistants as usize,
        total_tokens: totals.total as i64,
        input_tokens: totals.input as i64,
        output_tokens: totals.output as i64,
        total_cost: totals.cost as i64,
    }
}

/// The running sums of the messages' data.
fn message_sums(msgs: &Vec<MessageWithParts>) -> (t: Totals)
    ensures
        totals_ok(datas(msgs@), t),
{
    let ghost rows = datas(msgs@);
    let mut totals = Totals {
        users: 0,
        assistants: 0,
        total: 0,
        input: 0,
        output: 0,
        reasoning: 0,
        cache_write: 0,
        cache_read: 0,
        cost: 0,
    };
    let n = msgs.len();
    let mut k: usize = 0;
    proof {
        lemma_sums_empty(rows.take(0));
    }
    while k < n
        invariant
            k <= n,
            n == msgs@.len(),
            rows == datas(msgs@),
            totals_ok(rows.take(k as int), totals),
        decreases n - k,
    {
        let d = &msgs[k].message.data;
        let ghost pre = rows.take(k as int);
        proof {
            assert(pre.push(*d) =~= rows.take(k + 1));
        }
        totals.add(d, Ghost(pre));
        k = k + 1;
    }
    assert(rows.take(n as int) =~= rows);
    totals
}

/// Whether the token and cost totals of the messages fit in an `i64` (see
/// [`totals_fit`]).
pub fn totals_in_range(msgs: &Vec<MessageWithParts>) -> (r: bool)
    ensures
        r == totals_fit(datas(msgs@)),
{
    let t = message_sums(msgs);
    fits_i64(t.total) && fits_i64(t.input) && fits_i64(t.output) && fits_i64(t.cost)
}

// ───────────────────────── usage of compared sessions ─────────────────────────

/// The agents the messages name, in message order (messages that name
/// none are left out).
pub open spec fn named_agents(rows: Seq<MessageData>) -> Seq<Seq<char>>
    decreases rows.len(),
{
    if rows.len() == 0 {
        Seq::empty()
    } else {
        let rest = named_agents(rows.drop_last());
        match rows.last().agent {
            Some(a) => rest.push(a@),
            None => rest,
        }
    }
}

/// How many times `a` occurs in `s`.
pub open spec fn occurrences(s: Seq<Seq<char>>, a: Seq<char>) -> int
    decreases s.len(),
{
    if s.len() == 0 {
        0
    } else {
        occurrences(s.drop_last(), a) + if s.last() == a {
            1int
        } else {
            0int
        }
    }
}

/// What two sessions are compared by: token and cost sums, and how many
/// messages each named agent wrote, by agent name in order.
pub struct UsageAgg {
    pub total_tokens: i64,
    pub input_tokens: i64,
    pub output_tokens: i64,
    /// In millionths of a dollar.
    pub total_cost: i64,
    pub agent_counts: Vec<(String, usize)>,
}

/// The agent names of a list of counts.
pub open spec fn count_keys(c: Seq<(String, usize)>) -> Seq<Seq<char>> {
    Seq::new(c.len(), |i: int| c[i].0@)
}

/// Whether `u` is the usage of the messages `rows`.
pub open spec fn is_usage_of(u: UsageAgg, rows: Seq<MessageData>) -> bool {
    &&& u.total_tokens == sum_of(rows, Qty::TotalTokens)
    &&& u.input_tokens == sum_of(rows, Qty::InputTokens)
    &&& u.output_tokens == sum_of(rows, Qty::OutputTokens)
    &&& u.total_cost == sum_of(rows, Qty::Cost)
    &&& sorted_set_of(count_keys(u.agent_counts@), named_agents(rows))
    &&& forall|i: int|
        0 <= i < u.agent_counts@.len() ==> #[trigger] u.agent_counts@[i].1 == occurrences(
            named_agents(rows),
            u.agent_counts@[i].0@,
        )
}

/// The named agents of a list of messages.
fn agent_names(msgs: &Vec<MessageWithParts>) -> (r: Vec<String>)
    ensures
        strs(r@) == named_agents(datas(msgs@)),
{
    let ghost rows = datas(msgs@);
    let mut r: Vec<String> = Vec::new();
    let mut k: usize = 0;
    while k < msgs.len()
        invariant
            k <= msgs@.len(),
            rows == datas(msgs@),
            strs(r@) == named_agents(rows.take(k as int)),
        decreases msgs@.len() - k,
    {
        proof {
            assert(rows.take(k + 1).drop_last() =~= rows.take(k as int));
            assert(rows.take(k + 1).last() == msgs@[k as int].message.data);
        }
        match &msgs[k].message.data.agent {
            Some(a) => {
                let c = a.clone();
                proof {
                    lemma_strs_push(r@, c);
                }
                r.push(c);
            },
            None => {},
        }
        k = k + 1;
    }
    proof {
        assert(rows.take(msgs@.len() as int) =~= rows);
    }
    r
}

/// How many times `x` occurs in `v`.
fn count_of(v: &Vec<String>, x: &String) -> (r: usize)
    ensures
        r == occurrences(strs(v@), x@),
{
    let mut c: usize = 0;
    let mut k: usize = 0;
    while k < v.len()
        invariant
            k <= v@.len(),
            c == occurrences(strs(v@).take(k as int), x@),
            c <= k,
        decreases v@.len() - k,
    {
        proof {
            assert(strs(v@).take(k + 1).drop_last() =~= strs(v@).take(k as int));
        }
        if str_eq(v[k].as_str(), x.as_str()) {
            c = c + 1;
        }
        k = k + 1;
    }
    proof {
        assert(strs(v@).take(v@.len() as int) =~= strs(v@));
    }
    c
}

/// The usage of `msgs` two sessions are compared by (see [`is_usage_of`]).
pub fn aggregate_usage(msgs: &Vec<MessageWithParts>) -> (u: UsageAgg)
    requires
        totals_fit(datas(msgs@)),
    ensures
        is_usage_of(u, datas(msgs@)),
{
    let t = message_totals(msgs);
    let names = agent_names(msgs);
    let keys = sorted_unique(&names);
    let mut counts: Vec<(String, usize)> = Vec::new();
    let mut i: usize = 0;
    while i < keys.len()
        invariant
            i <= keys@.len(),
            strs(names@) == named_agents(datas(msgs@)),
            counts@.len() == i,
            forall|j: int| 0 <= j < i ==> #[trigger] counts@[j].0@ == keys@[j]@,
            forall|j: int| 0 <= j < i ==> #[trigger] counts@[j].1 == occurrences(strs(names@), keys@[j]@),
        decreases keys@.len() - i,
    {
        let c = count_of(&names, &keys[i]);
        counts.push((keys[i].clone(), c));
        i = i + 1;
    }
    proof {
        assert(count_keys(counts@) =~= strs(keys@));
    }
    UsageAgg {
        total_tokens: t.total_tokens,
        input_tokens: t.input_tokens,
        output_tokens: t.output_tokens,
        total_cost: t.total_cost,
        agent_counts: counts,
    }
}

// ───────────────────────── the breakdown adds up ─────────────────────────

/// The field of a breakdown entry that holds quantity `q` (message count,
/// tokens or cost; other quantities have none).
pub open spec fn entry_qty(e: AgentBreakdown, q: Qty) -> int {
    match q {
        Qty::One => e.message_count as int,
        Qty::TotalTokens => e.total_tokens as int,
        Qty::Cost => e.total_cost as int,
        _ => 0,
    }
}

/// The sum of quantity `q` over the entries of a breakdown.
pub open spec fn breakdown_total(b: Seq<AgentBreakdown>, q: Qty) -> int
    decreases b.len(),
{
    if b.len() == 0 {
        0
    } else {
        breakdown_total(b.drop_last(), q) + entry_qty(b.last(), q)
    }
}

/// The sum of quantity `q` over the messages of each agent in `agents`.
pub open spec fn agents_total(rows: Seq<MessageData>, agents: Seq<Seq<char>>, q: Qty) -> int
    decreases agents.len(),
{
    if agents.len() == 0 {
        0
    } else {
        agents_total(rows, agents.drop_last(), q) + agent_sum(rows, agents.last(), q)
    }
}

/// How many times `a` occurs in `agents`.
pub open spec fn times_named(agents: Seq<Seq<char>>, a: Seq<char>) -> int
    decreases agents.len(),
{
    if agents.len() == 0 {
        0
    } else {
        times_named(agents.drop_last(), a) + if agents.last() == a {
            1int
        } else {
            0int
        }
    }
}

/// The agents a breakdown names, in order.
pub open spec fn entry_agents(b: Seq<AgentBreakdown>) -> Seq<Seq<char>> {
    Seq::new(b.len(), |i: int| b[i].agent@)
}

proof fn lemma_times_named_absent(agents: Seq<Seq<char>>, a: Seq<char>)
    requires
        !agents.contains(a),
    ensures
        times_named(agents, a) == 0,
    decreases agents.len(),
{
    if agents.len() > 0 {
        assert(agents.last() != a) by {
            assert(agents[agents.len() - 1] == agents.last());
        }
        assert(!agents.drop_last().contains(a)) by {
            if agents.drop_last().contains(a) {
                let k = choose|k: int| 0 <= k < agents.drop_last().len() && agents.drop_last()[k] == a;
                assert(agents[k] == a);
            }
        }
        lemma_times_named_absent(agents.drop_last(), a);
    }
}

proof fn lemma_times_named_once(agents: Seq<Seq<char>>, a: Seq<char>)
    requires
        agents.contains(a),
        forall|x: int, y: int| 0 <= x < agents.len() && 0 <= y < agents.len() && x != y ==> agents[x] != agents[y],
    ensures
        times_named(agents, a) == 1,
    decreases agents.len(),
{
    let rest = agents.drop_last();
    assert forall|x: int, y: int| 0 <= x < rest.len() && 0 <= y < rest.len() && x != y implies rest[x] != rest[y] by {
        assert(rest[x] == agents[x] && rest[y] == agents[y]);
    }
    if agents.last() == a {
        assert(!rest.contains(a)) by {
            if rest.contains(a) {
                let k = choose|k: int| 0 <= k < rest.len() && rest[k] == a;
                assert(agents[k] == agents[agents.len() - 1]);
            }
        }
        lemma_times_named_absent(rest, a);
    } else {
        let k = choose|k: int| 0 <= k < agents.len() && agents[k] == a;
        assert(k < agents.len() - 1);
        assert(rest[k] == a);
        lemma_times_named_once(rest, a);
    }
}

proof fn lemma_agents_total_push(rows: Seq<MessageData>, d: MessageData, agents: Seq<Seq<char>>, q: Qty)
    ensures
        agents_total(rows.push(d), agents, q) == agents_total(rows, agents, q) + times_named(agents, agent_of(d)) * qty(
            q,
            d,
        ),
    decreases agents.len(),
{
    if agents.len() > 0 {
        lemma_agents_total_push(rows, d, agents.drop_last(), q);
        reveal_with_fuel(agent_sum, 1);
        assert(rows.push(d).drop_last() =~= rows);
        assert(times_named(agents, agent_of(d)) * qty(q, d) == times_named(agents.drop_last(), agent_of(d)) * qty(q, d)
            + (if agents.last() == agent_of(d) {
            qty(q, d)
        } else {
            0
        })) by (nonlinear_arith)
            requires
                times_named(agents, agent_of(d)) == times_named(agents.drop_last(), agent_of(d)) + if agents.last()
                    == agent_of(d) {
                    1int
                } else {
                    0int
                },
        ;
    }
}

proof fn lemma_agents_total_empty(rows: Seq<MessageData>, agents: Seq<Seq<char>>, q: Qty)
    requires
        rows.len() == 0,
    ensures
        agents_total(rows, agents, q) == 0,
    decreases agents.len(),
{
    reveal_with_fuel(agent_sum, 1);
    if agents.len() > 0 {
        lemma_agents_total_empty(rows, agents.drop_last(), q);
    }
}

/// Summing over distinct agents that cover every message gives the total.
proof fn lemma_agents_partition(rows: Seq<MessageData>, agents: Seq<Seq<char>>, q: Qty)
    requires
        forall|x: int, y: int| 0 <= x < agents.len() && 0 <= y < agents.len() && x != y ==> agents[x] != agents[y],
        forall|k: int| 0 <= k < rows.len() ==> agents.contains(agent_of(#[trigger] rows[k])),
    ensures
        agents_total(rows, agents, q) == sum_of(rows, q),
    decreases rows.len(),
{
    reveal_with_fuel(sum_of, 1);
    if rows.len() == 0 {
        lemma_agents_total_empty(rows, agents, q);
    } else {
        let pre = rows.drop_last();
        let d = rows.last();
        assert forall|k: int| 0 <= k < pre.len() implies agents.contains(agent_of(#[trigger] pre[k])) by {
            assert(pre[k] == rows[k]);
        }
        lemma_agents_partition(pre, agents, q);
        assert(agents.contains(agent_of(rows[rows.len() - 1])));
        lemma_times_named_once(agents, agent_of(d));
        assert(pre.push(d) =~= rows);
        lemma_agents_total_push(pre, d, agents, q);
    }
}

proof fn lemma_breakdown_is_agents_total(rows: Seq<MessageData>, b: Seq<AgentBreakdown>, q: Qty)
    requires
        q == Qty::One || q == Qty::TotalTokens || q == Qty::Cost,
        forall|x: int| 0 <= x < b.len() ==> entry_of(rows, #[trigger] b[x]),
    ensures
        breakdown_total(b, q) == agents_total(rows, entry_agents(b), q),
    decreases b.len(),
{
    if b.len() > 0 {
        let rest = b.drop_last();
        assert forall|x: int| 0 <= x < rest.len() implies entry_of(rows, #[trigger] rest[x]) by {
            assert(rest[x] == b[x]);
        }
        lemma_breakdown_is_agents_total(rows, rest, q);
        assert(entry_agents(b).drop_last() =~= entry_agents(rest));
        assert(entry_of(rows, b[b.len() - 1]));
    }
}

proof fn lemma_sum_of_ones(rows: Seq<MessageData>)
    ensures
        sum_of(rows, Qty::One) == rows.len(),
    decreases rows.len(),
{
    reveal_with_fuel(sum_of, 1);
    if rows.len() > 0 {
        lemma_sum_of_ones(rows.drop_last());
    }
}

/// Every message is counted under exactly one agent: the message counts of
/// a breakdown add up to the number of messages, and its tokens and costs to
/// the session's totals.
pub proof fn law_breakdown_adds_up(rows: Seq<MessageData>, b: Seq<AgentBreakdown>)
    requires
        is_breakdown(rows, b),
    ensures
        breakdown_total(b, Qty::One) == rows.len(),
        breakdown_total(b, Qty::TotalTokens) == sum_of(rows, Qty::TotalTokens),
        breakdown_total(b, Qty::Cost) == sum_of(rows, Qty::Cost),
{
    let names = entry_agents(b);
    assert forall|x: int, y: int| 0 <= x < names.len() && 0 <= y < names.len() && x != y implies names[x]
        != names[y] by {
        assert(b[x].agent@ != b[y].agent@);
    }
    assert forall|k: int| 0 <= k < rows.len() implies names.contains(agent_of(#[trigger] rows[k])) by {
        assert(has_agent(b, agent_of(rows[k])));
        let x = choose|x: int| 0 <= x < b.len() && #[trigger] b[x].agent@ == agent_of(rows[k]);
        assert(names[x] == agent_of(rows[k]));
    }
    lemma_breakdown_is_agents_total(rows, b, Qty::One);
    lemma_breakdown_is_agents_total(rows, b, Qty::TotalTokens);
    lemma_breakdown_is_agents_total(rows, b, Qty::Cost);
    lemma_agents_partition(rows, names, Qty::One);
    lemma_agents_partition(rows, names, Qty::TotalTokens);
    lemma_agents_partition(rows, names, Qty::Cost);
    lemma_sum_of_ones(rows);
}

/// The totals of an export and the usage of a comparison add up message by
/// message: one more message adds one to the message count and to the count
/// of its role, and its own total, input and output tokens and its own cost
/// (0 for what it does not have) to the matching sums.
pub proof fn law_totals_add_up_message_by_message(
    t1: MessageTotals,
    t2: MessageTotals,
    u1: UsageAgg,
    u2: UsageAgg,
    rows: Seq<MessageData>,
    d: MessageData,
)
    requires
        is_totals_of(t1, rows),
        is_totals_of(t2, rows.push(d)),
        is_usage_of(u1, rows),
        is_usage_of(u2, rows.push(d)),
    ensures
        ({
            let v = |o: Option<i64>| -> int {
                match o {
                    Some(x) => x as int,
                    None => 0,
                }
            };
            let (total, input, output) = match d.tokens {
                Some(t) => (v(t.total), v(t.input), v(t.output)),
                None => (0, 0, 0),
            };
            &&& t2.messages == t1.messages + 1
            &&& t2.user_messages == t1.user_messages + if d.role@ == "user"@ { 1int } else { 0 }
            &&& t2.assistant_messages == t1.assistant_messages + if d.role@ == "assistant"@ { 1int } else { 0 }
            &&& t2.total_tokens == t1.total_tokens + total && u2.total_tokens == u1.total_tokens + total
            &&& t2.input_tokens == t1.input_tokens + input && u2.input_tokens == u1.input_tokens + input
            &&& t2.output_tokens == t1.output_tokens + output && u2.output_tokens == u1.output_tokens + output
            &&& t2.total_cost == t1.total_cost + v(d.cost) && u2.total_cost == u1.total_cost + v(d.cost)
        }),
{
    reveal(sum_of);
    reveal(role_count);
    assert(rows.push(d).drop_last() =~= rows);
}

/// The per-agent breakdown lists each agent once, from the most expensive
/// to the cheapest, and counts each message under the agent it names, or
/// under `unknown` when it names none: one more message adds one message,
/// its total tokens and its cost to that agent alone.
pub proof fn law_breakdown_counts_each_message_under_its_agent(
    rows: Seq<MessageData>,
    b: Seq<AgentBreakdown>,
    d: MessageData,
    a: Seq<char>,
)
    requires
        is_breakdown(rows, b),
    ensures
        forall|x: int, y: int| 0 <= x < y < b.len() ==> #[trigger] b[x].total_cost >= #[trigger] b[y].total_cost,
        forall|x: int, y: int|
            0 <= x < b.len() && 0 <= y < b.len() && x != y ==> #[trigger] b[x].agent@ != #[trigger] b[y].agent@,
        ({
            let named = match d.agent {
                Some(n) => n@,
                None => "unknown"@,
            };
            let v = |o: Option<i64>| -> int {
                match o {
                    Some(x) => x as int,
                    None => 0,
                }
            };
            let tokens = match d.tokens {
                Some(t) => v(t.total),
                None => 0,
            };
            let rs = rows.push(d);
            &&& agent_sum(rs, a, Qty::One) == agent_sum(rows, a, Qty::One) + if named == a { 1int } else { 0 }
            &&& agent_sum(rs, a, Qty::TotalTokens) == agent_sum(rows, a, Qty::TotalTokens) + if named == a {
                tokens
            } else {
                0
            }
            &&& agent_sum(rs, a, Qty::Cost) == agent_sum(rows, a, Qty::Cost) + if named == a { v(d.cost) } else { 0 }
        }),
{
    reveal(agent_sum);
    assert(rows.push(d).drop_last() =~= rows);
}

} // verus!
