//! Agent threads as the collaboration layer tracks them: identifiers,
//! statuses, the events that close each operation, and the resolution of a
//! wait over several threads.
use vstd::prelude::*;

use crate::keyed::{keys_are_distinct, distinct_keys, distinct_ids, find_key, ids_of, lemma_lookup, lookup, put_key};
use crate::ids::{is_space, is_space_char, trim, trim_chars};
use crate::text::{lemma_lex_total, lex_lt, string_of, text_lt, texts};

verus! {

/// Identifies one agent thread.
#[derive(Clone, Debug, PartialEq, Eq, Hash)]
pub struct ThreadId {
    pub value: String,
}

/// Correlates the begin and end events of one operation.
#[derive(Clone, Debug, PartialEq, Eq, Hash)]
pub struct CallId {
    pub value: String,
}

/// The end of a spawn: the new thread (absent if none was created), the
/// role it was spawned as, the prompt it was given and its status.
#[derive(Clone, Debug, PartialEq, Eq)]
pub struct SpawnEndEvent {
    pub call_id: CallId,
    pub sender_thread_id: ThreadId,
    pub new_thread_id: Option<ThreadId>,
    pub agent_role: Option<String>,
    pub prompt: String,
    pub status: AgentStatus,
}

/// The end of sending input to a thread.
#[derive(Clone, Debug, PartialEq, Eq)]
pub struct InteractionEndEvent {
    pub call_id: CallId,
    pub sender_thread_id: ThreadId,
    pub receiver_thread_id: ThreadId,
    pub prompt: String,
    pub status: AgentStatus,
}

/// The start of a wait on several threads.
#[derive(Clone, Debug, PartialEq, Eq)]
pub struct WaitingBeginEvent {
    pub call_id: CallId,
    pub sender_thread_id: ThreadId,
    pub receiver_thread_ids: Vec<ThreadId>,
}

/// The end of a wait: one status per requested thread, keyed by thread id.
#[derive(Clone, Debug, PartialEq, Eq)]
pub struct WaitingEndEvent {
    pub call_id: CallId,
    pub sender_thread_id: ThreadId,
    pub statuses: Vec<(String, AgentStatus)>,
}

impl WaitingEndEvent {
    /// Each thread appears once among the statuses.
    pub open spec fn wf(&self) -> bool {
        distinct_keys(self.statuses@)
    }

    pub fn is_well_formed(&self) -> (r: bool)
        ensures
            r == self.wf(),
    {
        keys_are_distinct(&self.statuses)
    }
}

/// The end of closing a thread.
#[derive(Clone, Debug, PartialEq, Eq)]
pub struct CloseEndEvent {
    pub call_id: CallId,
    pub sender_thread_id: ThreadId,
    pub receiver_thread_id: ThreadId,
    pub status: AgentStatus,
}

/// The start of resuming a thread.
#[derive(Clone, Debug, PartialEq, Eq)]
pub struct ResumeBeginEvent {
    pub call_id: CallId,
    pub sender_thread_id: ThreadId,
    pub receiver_thread_id: ThreadId,
}

/// The end of resuming a thread.
#[derive(Clone, Debug, PartialEq, Eq)]
pub struct ResumeEndEvent {
    pub call_id: CallId,
    pub sender_thread_id: ThreadId,
    pub receiver_thread_id: ThreadId,
    pub status: AgentStatus,
}

/// What is known of an agent thread.
#[derive(Clone, Debug, PartialEq, Eq)]
pub enum AgentStatus {
    /// Spawned, not producing output yet.
    PendingInit,
    Running,
    /// Finished, with its last message if it left one.
    Completed(Option<String>),
    Errored(String),
    /// Closed cleanly.
    Shutdown,
    /// The thread is not, or no longer, tracked.
    NotFound,
}

impl AgentStatus {
    /// A status after which a thread makes no more progress.
    pub open spec fn terminal(&self) -> bool {
        match self {
            AgentStatus::PendingInit | AgentStatus::Running => false,
            _ => true,
        }
    }

    pub fn is_terminal(&self) -> (r: bool)
        ensures
            r == self.terminal(),
    {
        match self {
            AgentStatus::PendingInit | AgentStatus::Running => false,
            _ => true,
        }
    }

    pub fn duplicate(&self) -> (r: AgentStatus)
        ensures
            r == *self,
    {
        match self {
            AgentStatus::PendingInit => AgentStatus::PendingInit,
            AgentStatus::Running => AgentStatus::Running,
            AgentStatus::Completed(m) => AgentStatus::Completed(
                match m {
                    Some(s) => Some(s.clone()),
                    None => None,
                },
            ),
            AgentStatus::Errored(e) => AgentStatus::Errored(e.clone()),
            AgentStatus::Shutdown => AgentStatus::Shutdown,
            AgentStatus::NotFound => AgentStatus::NotFound,
        }
    }
}

/// Whether a thread reported as `prev` may next be reported as `next`: a
/// thread moves from pending to running to a terminal status and never back;
/// any thread may turn out not to be found.
pub open spec fn may_follow(prev: AgentStatus, next: AgentStatus) -> bool {
    match next {
        AgentStatus::NotFound => true,
        AgentStatus::PendingInit => prev is PendingInit,
        AgentStatus::Running => prev is PendingInit || prev is Running,
        _ => prev is Running,
    }
}

pub fn is_valid_transition(prev: &AgentStatus, next: &AgentStatus) -> (r: bool)
    ensures
        r == may_follow(*prev, *next),
{
    match next {
        AgentStatus::NotFound => true,
        AgentStatus::PendingInit => matches!(prev, AgentStatus::PendingInit),
        AgentStatus::Running => matches!(prev, AgentStatus::PendingInit | AgentStatus::Running),
        _ => matches!(prev, AgentStatus::Running),
    }
}

/// No status comes back once a terminal one was reported, but `NotFound`.
pub proof fn lemma_terminal_is_final(prev: AgentStatus, next: AgentStatus)
    requires
        prev.terminal(),
        may_follow(prev, next),
    ensures
        next is NotFound,
{
}

/// The status a wait reports for thread `t`: what the runtime knows of it,
/// or `NotFound`.
pub open spec fn waited_status(known: Seq<(String, AgentStatus)>, t: Seq<char>) -> AgentStatus {
    match lookup(known, t) {
        Some(s) => s,
        None => AgentStatus::NotFound,
    }
}

/// Resolves a wait over `targets` against the statuses the runtime knows:
/// exactly one entry per requested thread, `NotFound` for a thread the
/// runtime does not know.
pub fn resolve_wait(targets: &Vec<String>, known: &Vec<(String, AgentStatus)>) -> (r: Vec<(String, AgentStatus)>)
    requires
        distinct_keys(known@),
    ensures
        distinct_keys(r@),
        forall|t: Seq<char>| #[trigger] lookup(r@, t) is Some <==> ids_of(targets@).contains(t),
        forall|t: Seq<char>| ids_of(targets@).contains(t) ==> #[trigger] lookup(r@, t) == Some(
            waited_status(known@, t),
        ),
{
    let mut r: Vec<(String, AgentStatus)> = Vec::new();
    let mut i: usize = 0;
    while i < targets.len()
        invariant
            i <= targets.len(),
            distinct_keys(known@),
            distinct_keys(r@),
            forall|t: Seq<char>| #[trigger] lookup(r@, t) is Some <==> ids_of(targets@.take(i as int)).contains(t),
            forall|t: Seq<char>| ids_of(targets@.take(i as int)).contains(t) ==> #[trigger] lookup(r@, t) == Some(
                waited_status(known@, t),
            ),
        decreases targets.len() - i,
    {
        let status = match find_key(known, targets[i].as_str()) {
            Some(k) => known[k].1.duplicate(),
            None => AgentStatus::NotFound,
        };
        let ghost ti = targets@[i as int]@;
        put_key(&mut r, targets[i].clone(), status);
        proof {
            let t0 = targets@.take(i as int);
            let t1 = targets@.take(i + 1);
            assert(t1[i as int] == targets@[i as int]);
            assert forall|t: Seq<char>| ids_of(t1).contains(t) <==> ids_of(t0).contains(t) || t == ti by {
                if ids_of(t0).contains(t) {
                    let k = choose|k: int| 0 <= k < t0.len() && t0[k]@ == t;
                    assert(t1[k] == t0[k]);
                }
                if ids_of(t1).contains(t) && t != ti {
                    let k = choose|k: int| 0 <= k < t1.len() && t1[k]@ == t;
                    assert(t1[k] == t0[k]);
                }
            }
        }
        i = i + 1;
    }
    assert(targets@.take(i as int) =~= targets@);
    r
}

/// A wait answers for every requested thread, and with `NotFound` for each
/// one that the runtime does not know.
pub proof fn lemma_wait_covers_targets(
    targets: Seq<String>,
    known: Seq<(String, AgentStatus)>,
    result: Seq<(String, AgentStatus)>,
)
    requires
        distinct_keys(result),
        forall|t: Seq<char>| #[trigger] lookup(result, t) is Some <==> ids_of(targets).contains(t),
        forall|t: Seq<char>| ids_of(targets).contains(t) ==> #[trigger] lookup(result, t) == Some(
            waited_status(known, t),
        ),
    ensures
        forall|t: Seq<char>|
            ids_of(targets).contains(t) && lookup(known, t) is None ==> #[trigger] lookup(result, t)
                == Some(AgentStatus::NotFound),
        distinct_ids(targets) ==> result.len() == targets.len(),
{
    if distinct_ids(targets) {
        lemma_same_keys_same_len(targets, result);
    }
}

/// The keys of a status map, in order.
pub open spec fn status_keys(e: Seq<(String, AgentStatus)>) -> Seq<Seq<char>> {
    e.map_values(|x: (String, AgentStatus)| x.0@)
}

/// A map with distinct keys whose keys are the ids of a list of distinct ids
/// has as many entries as the list.
proof fn lemma_same_keys_same_len(ids: Seq<String>, e: Seq<(String, AgentStatus)>)
    requires
        distinct_ids(ids),
        distinct_keys(e),
        forall|t: Seq<char>| #[trigger] lookup(e, t) is Some <==> ids_of(ids).contains(t),
    ensures
        e.len() == ids.len(),
{
    let va = texts(ids);
    let vb = status_keys(e);
    let a = va.to_set();
    let b = vb.to_set();
    assert forall|t: Seq<char>| a.contains(t) <==> b.contains(t) by {
        lemma_lookup(e, t);
        if a.contains(t) {
            let k = choose|k: int| 0 <= k < va.len() && #[trigger] va[k] == t;
            assert(ids[k]@ == t);
            assert(ids_of(ids).contains(t));
            if !b.contains(t) {
                assert forall|j: int| 0 <= j < e.len() implies e[j].0@ != t by {
                    assert(vb[j] == e[j].0@);
                }
            }
        }
        if b.contains(t) {
            let j = choose|j: int| 0 <= j < vb.len() && #[trigger] vb[j] == t;
            assert(e[j].0@ == t);
            let k = choose|k: int| 0 <= k < ids.len() && ids[k]@ == t;
            assert(va[k] == t);
        }
    }
    assert(a =~= b);
    assert(va.no_duplicates()) by {
        assert forall|i: int, j: int| 0 <= i < va.len() && 0 <= j < va.len() && i != j implies va[i] != va[j] by {
            if i < j {
                assert(ids[i]@ != ids[j]@);
            } else {
                assert(ids[j]@ != ids[i]@);
            }
        }
    }
    assert(vb.no_duplicates()) by {
        assert forall|i: int, j: int| 0 <= i < vb.len() && 0 <= j < vb.len() && i != j implies vb[i] != vb[j] by {
            if i < j {
                assert(e[i].0@ != e[j].0@);
            } else {
                assert(e[j].0@ != e[i].0@);
            }
        }
    }
    va.unique_seq_to_set();
    vb.unique_seq_to_set();
}

/// How a status is named to users.
pub open spec fn status_label_spec(s: AgentStatus) -> Seq<char> {
    match s {
        AgentStatus::PendingInit => "pending init"@,
        AgentStatus::Running => "running"@,
        AgentStatus::Completed(_) => "completed"@,
        AgentStatus::Errored(_) => "errored"@,
        AgentStatus::Shutdown => "shutdown"@,
        AgentStatus::NotFound => "not found"@,
    }
}

pub fn status_label(s: &AgentStatus) -> (r: &'static str)
    ensures
        r@ == status_label_spec(*s),
{
    match s {
        AgentStatus::PendingInit => "pending init",
        AgentStatus::Running => "running",
        AgentStatus::Completed(_) => "completed",
        AgentStatus::Errored(_) => "errored",
        AgentStatus::Shutdown => "shutdown",
        AgentStatus::NotFound => "not found",
    }
}

/// `s` cut at each `\n`; `n` newlines make `n + 1` pieces.
pub open spec fn pieces(s: Seq<char>) -> Seq<Seq<char>>
    decreases s.len(),
{
    if s.len() == 0 {
        seq![Seq::empty()]
    } else {
        let p = pieces(s.drop_last());
        if s.last() == '\n' {
            p.push(Seq::empty())
        } else {
            p.update(p.len() - 1, p.last().push(s.last()))
        }
    }
}

proof fn lemma_pieces_nonempty(s: Seq<char>)
    ensures
        pieces(s).len() >= 1,
    decreases s.len(),
{
    if s.len() > 0 {
        lemma_pieces_nonempty(s.drop_last());
    }
}

/// A line without its trailing carriage return.
pub open spec fn strip_cr(l: Seq<char>) -> Seq<char> {
    if l.len() > 0 && l.last() == '\r' {
        l.drop_last()
    } else {
        l
    }
}

pub open spec fn stripped_pieces(s: Seq<char>) -> Seq<Seq<char>> {
    pieces(s).map_values(|l: Seq<char>| strip_cr(l))
}

/// The lines of a prompt as shown: the prompt is trimmed, then cut into
/// lines; a blank prompt has none.
pub open spec fn prompt_line_texts(prompt: Seq<char>) -> Seq<Seq<char>> {
    if trim(prompt).len() == 0 {
        Seq::empty()
    } else {
        stripped_pieces(trim(prompt))
    }
}

fn strip_cr_text(v: &Vec<char>) -> (r: String)
    ensures
        r@ == strip_cr(v@),
{
    if v.len() > 0 && v[v.len() - 1] == '\r' {
        let mut w: Vec<char> = Vec::new();
        let mut i: usize = 0;
        while i < v.len() - 1
            invariant
                i <= v.len() - 1,
                v.len() > 0,
                w@ =~= v@.take(i as int),
            decreases v.len() - 1 - i,
        {
            w.push(v[i]);
            i = i + 1;
        }
        string_of(&w)
    } else {
        string_of(v)
    }
}

/// The lines of a prompt, every one of them kept.
pub fn prompt_lines(prompt: &str) -> (r: Vec<String>)
    ensures
        texts(r@) == prompt_line_texts(prompt@),
{
    let t = trim_chars(prompt);
    let mut done: Vec<String> = Vec::new();
    if t.len() == 0 {
        assert(texts(done@) =~= Seq::<Seq<char>>::empty());
        return done;
    }
    let mut cur: Vec<char> = Vec::new();
    let mut i: usize = 0;
    proof {
        assert(t@.take(0) =~= Seq::<char>::empty());
        assert(texts(done@) =~= stripped_pieces(t@.take(0)).drop_last());
    }
    while i < t.len()
        invariant
            i <= t.len(),
            pieces(t@.take(i as int)).len() >= 1,
            texts(done@) == stripped_pieces(t@.take(i as int)).drop_last(),
            pieces(t@.take(i as int)).last() == cur@,
        decreases t.len() - i,
    {
        let ghost before = t@.take(i as int);
        let ghost after = t@.take(i + 1);
        assert(after.drop_last() =~= before);
        assert(after.last() == t@[i as int]);
        let ghost done_before = done@;
        let ghost cur_before = cur@;
        if t[i] == '\n' {
            let line = strip_cr_text(&cur);
            done.push(line);
            cur = Vec::new();
            assert(pieces(after) == pieces(before).push(Seq::empty()));
            assert(texts(done@) =~= texts(done_before).push(strip_cr(cur_before)));
            assert(stripped_pieces(after).drop_last() =~= stripped_pieces(before).drop_last().push(strip_cr(cur_before)));
            assert(texts(done@) =~= stripped_pieces(after).drop_last());
            assert(pieces(after).last() =~= cur@);
        } else {
            cur.push(t[i]);
            assert(pieces(after) == pieces(before).update(pieces(before).len() - 1, pieces(before).last().push(t@[i as int])));
            assert(stripped_pieces(after).drop_last() =~= stripped_pieces(before).drop_last());
            assert(texts(done@) =~= stripped_pieces(after).drop_last());
        }
        i = i + 1;
    }
    assert(t@.take(i as int) =~= t@);
    let line = strip_cr_text(&cur);
    let ghost done_before = done@;
    done.push(line);
    assert(texts(done@) =~= texts(done_before).push(strip_cr(pieces(t@).last())));
    assert(stripped_pieces(t@) =~= stripped_pieces(t@).drop_last().push(strip_cr(pieces(t@).last())));
    assert(texts(done@) =~= stripped_pieces(t@));
    done
}

/// `s` with each run of whitespace replaced by one space.
pub open spec fn squeeze(s: Seq<char>) -> Seq<char>
    decreases s.len(),
{
    if s.len() == 0 {
        Seq::empty()
    } else {
        let p = squeeze(s.drop_last());
        if is_space(s.last()) {
            if p.len() > 0 && p.last() == ' ' {
                p
            } else {
                p.push(' ')
            }
        } else {
            p.push(s.last())
        }
    }
}

/// The words of `s`, joined by single spaces.
pub open spec fn single_spaced(s: Seq<char>) -> Seq<char> {
    trim(squeeze(s))
}

/// `s` cut to at most `max` characters, the cut marked by `...`.
pub open spec fn shortened(s: Seq<char>, max: nat) -> Seq<char> {
    if s.len() <= max {
        s
    } else if max >= 3 {
        s.take(max - 3) + "..."@
    } else {
        s.take(max as int)
    }
}

/// How many characters of an error message a wait summary shows.
pub const ERROR_PREVIEW_CHARS: usize = 160;

/// An error message as a wait summary shows it: on one line, and cut to
/// `ERROR_PREVIEW_CHARS` characters.
pub fn error_preview(error: &str) -> (r: String)
    ensures
        r@ == shortened(single_spaced(error@), ERROR_PREVIEW_CHARS as nat),
{
    let v = crate::text::chars_of(error);
    let mut out: Vec<char> = Vec::new();
    let mut i: usize = 0;
    while i < v.len()
        invariant
            i <= v.len(),
            v@ == error@,
            out@ == squeeze(v@.take(i as int)),
        decreases v.len() - i,
    {
        assert(v@.take(i + 1).drop_last() =~= v@.take(i as int));
        let c = v[i];
        if is_space_char(c) {
            if !(out.len() > 0 && out[out.len() - 1] == ' ') {
                out.push(' ');
            }
        } else {
            out.push(c);
        }
        i = i + 1;
    }
    assert(v@.take(i as int) =~= v@);
    let squeezed = string_of(&out);
    let t = trim_chars(squeezed.as_str());
    if t.len() <= ERROR_PREVIEW_CHARS {
        string_of(&t)
    } else {
        let mut w: Vec<char> = Vec::new();
        let mut k: usize = 0;
        while k < ERROR_PREVIEW_CHARS - 3
            invariant
                k <= ERROR_PREVIEW_CHARS - 3,
                t.len() > ERROR_PREVIEW_CHARS,
                w@ =~= t@.take(k as int),
            decreases ERROR_PREVIEW_CHARS - 3 - k,
        {
            w.push(t[k]);
            k = k + 1;
        }
        crate::text::push_text(&mut w, "...");
        string_of(&w)
    }
}

/// Which of the six statuses `s` is, as a number.
pub open spec fn status_kind(s: AgentStatus) -> int {
    match s {
        AgentStatus::PendingInit => 0,
        AgentStatus::Running => 1,
        AgentStatus::Completed(_) => 2,
        AgentStatus::Errored(_) => 3,
        AgentStatus::Shutdown => 4,
        AgentStatus::NotFound => 5,
    }
}

/// How many entries of `e` have status kind `k`.
pub open spec fn count_kind(e: Seq<(String, AgentStatus)>, k: int) -> nat
    decreases e.len(),
{
    if e.len() == 0 {
        0
    } else {
        count_kind(e.drop_last(), k) + if status_kind(e.last().1) == k {
            1nat
        } else {
            0nat
        }
    }
}

proof fn lemma_count_kind_bound(e: Seq<(String, AgentStatus)>, k: int)
    ensures
        count_kind(e, k) <= e.len(),
    decreases e.len(),
{
    if e.len() > 0 {
        lemma_count_kind_bound(e.drop_last(), k);
    }
}

/// How many threads a wait found in each status.
#[derive(Clone, Copy, Debug, PartialEq, Eq, Structural)]
pub struct StatusCounts {
    pub pending_init: usize,
    pub running: usize,
    pub completed: usize,
    pub errored: usize,
    pub shutdown: usize,
    pub not_found: usize,
}

pub fn count_statuses(statuses: &Vec<(String, AgentStatus)>) -> (r: StatusCounts)
    ensures
        r.pending_init == count_kind(statuses@, 0),
        r.running == count_kind(statuses@, 1),
        r.completed == count_kind(statuses@, 2),
        r.errored == count_kind(statuses@, 3),
        r.shutdown == count_kind(statuses@, 4),
        r.not_found == count_kind(statuses@, 5),
{
    let mut c = StatusCounts { pending_init: 0, running: 0, completed: 0, errored: 0, shutdown: 0, not_found: 0 };
    let mut i: usize = 0;
    while i < statuses.len()
        invariant
            i <= statuses.len(),
            c.pending_init == count_kind(statuses@.take(i as int), 0),
            c.running == count_kind(statuses@.take(i as int), 1),
            c.completed == count_kind(statuses@.take(i as int), 2),
            c.errored == count_kind(statuses@.take(i as int), 3),
            c.shutdown == count_kind(statuses@.take(i as int), 4),
            c.not_found == count_kind(statuses@.take(i as int), 5),
        decreases statuses.len() - i,
    {
        assert(statuses@.take(i + 1).drop_last() =~= statuses@.take(i as int));
        proof {
            let t = statuses@.take(i as int);
            lemma_count_kind_bound(t, 0);
            lemma_count_kind_bound(t, 1);
            lemma_count_kind_bound(t, 2);
            lemma_count_kind_bound(t, 3);
            lemma_count_kind_bound(t, 4);
            lemma_count_kind_bound(t, 5);
        }
        match &statuses[i].1 {
            AgentStatus::PendingInit => c.pending_init = c.pending_init + 1,
            AgentStatus::Running => c.running = c.running + 1,
            AgentStatus::Completed(_) => c.completed = c.completed + 1,
            AgentStatus::Errored(_) => c.errored = c.errored + 1,
            AgentStatus::Shutdown => c.shutdown = c.shutdown + 1,
            AgentStatus::NotFound => c.not_found = c.not_found + 1,
        }
        i = i + 1;
    }
    assert(statuses@.take(i as int) =~= statuses@);
    c
}

/// Entries ordered by thread id, each id before the next.
pub open spec fn sorted_by_id(e: Seq<(String, AgentStatus)>) -> bool {
    forall|i: int| 0 <= i < e.len() - 1 ==> lex_lt((#[trigger] e[i]).0@, e[i + 1].0@)
}

/// The entries of a status map ordered by thread id, for display.
pub fn sorted_statuses(statuses: &Vec<(String, AgentStatus)>) -> (r: Vec<(String, AgentStatus)>)
    requires
        distinct_keys(statuses@),
    ensures
        r.len() == statuses.len(),
        distinct_keys(r@),
        sorted_by_id(r@),
        forall|t: Seq<char>| #[trigger] lookup(r@, t) == lookup(statuses@, t),
{
    let mut r: Vec<(String, AgentStatus)> = Vec::new();
    let mut i: usize = 0;
    while i < statuses.len()
        invariant
            i <= statuses.len(),
            r.len() == i,
            distinct_keys(statuses@),
            distinct_keys(r@),
            sorted_by_id(r@),
            forall|t: Seq<char>| #[trigger] lookup(r@, t) == lookup(statuses@.take(i as int), t),
        decreases statuses.len() - i,
    {
        let ghost prefix = statuses@.take(i as int);
        let ghost next = statuses@.take(i + 1);
        assert(next.drop_last() =~= prefix);
        let key = &statuses[i].0;
        let mut k: usize = 0;
        while k < r.len() && text_lt(r[k].0.as_str(), key.as_str())
            invariant
                k <= r.len(),
                forall|j: int| 0 <= j < k ==> lex_lt((#[trigger] r@[j]).0@, key@),
            decreases r.len() - k,
        {
            k = k + 1;
        }
        proof {
            assert forall|j: int| 0 <= j < i implies statuses@[j].0@ != key@ by {
                assert(statuses@[j].0@ != statuses@[i as int].0@);
            }
            lemma_lookup(prefix, key@);
            assert forall|j: int| 0 <= j < prefix.len() implies prefix[j].0@ != key@ by {
                assert(prefix[j] == statuses@[j]);
            }
            lemma_lookup(r@, key@);
            if k < r.len() {
                assert(r@[k as int].0@ != key@) by {
                    if r@[k as int].0@ == key@ {
                        assert(lookup(r@, key@) is Some);
                    }
                }
                lemma_lex_total(r@[k as int].0@, key@);
            }
        }
        let ghost before = r@;
        let entry = (key.clone(), statuses[i].1.duplicate());
        r.insert(k, entry);
        proof {
            assert(r@ == before.insert(k as int, entry));
            assert(sorted_by_id(r@)) by {
                assert forall|j: int| 0 <= j < r@.len() - 1 implies lex_lt((#[trigger] r@[j]).0@, r@[j + 1].0@) by {
                    if j + 1 < k {
                        assert(r@[j] == before[j]);
                        assert(r@[j + 1] == before[j + 1]);
                    } else if j + 1 == k {
                        assert(r@[j] == before[j]);
                    } else if j == k {
                        assert(r@[j + 1] == before[j]);
                    } else {
                        assert(r@[j] == before[j - 1]);
                        assert(r@[j + 1] == before[j]);
                    }
                }
            }
            assert(distinct_keys(r@)) by {
                assert forall|a: int, b: int| 0 <= a < b < r@.len() implies r@[a].0@ != r@[b].0@ by {
                    let a0 = if a < k { a } else { a - 1 };
                    let b0 = if b < k { b } else { b - 1 };
                    if a != k && b != k {
                        assert(r@[a] == before[a0]);
                        assert(r@[b] == before[b0]);
                    } else if a == k {
                        assert(r@[b] == before[b0]);
                    } else {
                        assert(r@[a] == before[a0]);
                    }
                }
            }
            assert forall|t: Seq<char>| #[trigger] lookup(r@, t) == lookup(next, t) by {
                lemma_lookup(r@, t);
                lemma_lookup(before, t);
                lemma_lookup(next, t);
                lemma_lookup(prefix, t);
                assert(next[i as int] == statuses@[i as int]);
                if t == key@ {
                    assert(r@[k as int] == entry);
                } else {
                    assert(lookup(before, t) == lookup(prefix, t));
                    if exists|j: int| 0 <= j < before.len() && before[j].0@ == t {
                        let j = choose|j: int| 0 <= j < before.len() && before[j].0@ == t;
                        if j < k {
                            assert(r@[j] == before[j]);
                        } else {
                            assert(r@[j + 1] == before[j]);
                        }
                        if exists|q: int| 0 <= q < prefix.len() && prefix[q].0@ == t {
                            let q = choose|q: int| 0 <= q < prefix.len() && prefix[q].0@ == t;
                            assert(next[q] == prefix[q]);
                        }
                    } else {
                        assert forall|j: int| 0 <= j < r@.len() implies r@[j].0@ != t by {
                            if j < k {
                                assert(r@[j] == before[j]);
                            } else if j > k {
                                assert(r@[j] == before[j - 1]);
                            }
                        }
                        if exists|q: int| 0 <= q < prefix.len() && prefix[q].0@ == t {
                            let q = choose|q: int| 0 <= q < prefix.len() && prefix[q].0@ == t;
                            assert(lookup(prefix, t) is Some);
                        }
                        assert forall|q: int| 0 <= q < next.len() implies next[q].0@ != t by {
                            if q < prefix.len() {
                                assert(next[q] == prefix[q]);
                            }
                        }
                    }
                }
            }
        }
        i = i + 1;
    }
    assert(statuses@.take(i as int) =~= statuses@);
    r
}

} // verus!
