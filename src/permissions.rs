//! Spawn permissions: which target roles a caller role may spawn, as a
//! default derived from the registry and an override that replaces it.
use vstd::prelude::*;

use crate::ids::{is_allow_all_token, matches_allow_all_token, normalize, normalize_role_id};
use crate::keyed::{
    add_id, copy_ids, distinct_ids, distinct_keys, find_last_key, has_id, ids_of,
    lemma_ids_of_empty, lookup, put_key,
};
use crate::text::{join_texts, join_with, push_text, string_of, texts};

verus! {

/// The meaning of a permission: every target, the listed targets, or none.
pub enum Access {
    All,
    Only(Set<Seq<char>>),
    Nothing,
}

/// Whether `access` lets its caller spawn `role`.
pub open spec fn access_allows(access: Access, role: Seq<char>) -> bool {
    match access {
        Access::All => true,
        Access::Only(s) => s.contains(role),
        Access::Nothing => false,
    }
}

/// The targets of `universe` that `access` allows.
pub open spec fn allowed_set(access: Access, universe: Set<Seq<char>>) -> Set<Seq<char>> {
    match access {
        Access::All => universe,
        Access::Only(s) => s,
        Access::Nothing => Set::empty(),
    }
}

/// An allow list names only targets of `universe`.
pub open spec fn within(access: Access, universe: Set<Seq<char>>) -> bool {
    access matches Access::Only(s) ==> s.subset_of(universe)
}

/// The effective permission: an override replaces the default outright, and
/// an empty allow list allows nothing.
pub open spec fn effective_access(ov: Option<Access>, default: Access) -> Access {
    match ov {
        None => default,
        Some(Access::Only(s)) => if s == Set::<Seq<char>>::empty() {
            Access::Nothing
        } else {
            Access::Only(s)
        },
        Some(a) => a,
    }
}

/// A user-set permission that replaces a caller's default.
#[derive(Clone, Debug, PartialEq, Eq)]
pub enum OverridePermission {
    All,
    AllowList(Vec<String>),
}

/// What a caller may spawn, after the override (if any) is applied.
#[derive(Clone, Debug, PartialEq, Eq)]
pub enum EffectivePermission {
    All,
    AllowList(Vec<String>),
    NoneAllowed,
}

impl OverridePermission {
    pub open spec fn model(&self) -> Access {
        match self {
            OverridePermission::All => Access::All,
            OverridePermission::AllowList(v) => Access::Only(ids_of(v@)),
        }
    }

    /// An allow list holds each id once.
    pub open spec fn wf(&self) -> bool {
        match self {
            OverridePermission::All => true,
            OverridePermission::AllowList(v) => distinct_ids(v@),
        }
    }

    pub fn duplicate(&self) -> (r: OverridePermission)
        ensures
            r.model() == self.model(),
            self.wf() ==> r.wf(),
    {
        match self {
            OverridePermission::All => OverridePermission::All,
            OverridePermission::AllowList(v) => OverridePermission::AllowList(copy_ids(v)),
        }
    }
}

impl EffectivePermission {
    pub open spec fn model(&self) -> Access {
        match self {
            EffectivePermission::All => Access::All,
            EffectivePermission::AllowList(v) => Access::Only(ids_of(v@)),
            EffectivePermission::NoneAllowed => Access::Nothing,
        }
    }

    pub open spec fn wf(&self) -> bool {
        match self {
            EffectivePermission::AllowList(v) => distinct_ids(v@),
            _ => true,
        }
    }

    /// `All` allows every role, `AllowList` the roles it lists, `NoneAllowed`
    /// none.
    pub fn allows(&self, role: &str) -> (r: bool)
        ensures
            r == access_allows(self.model(), role@),
    {
        match self {
            EffectivePermission::All => true,
            EffectivePermission::AllowList(allowed) => has_id(allowed, role),
            EffectivePermission::NoneAllowed => false,
        }
    }

    pub fn duplicate(&self) -> (r: EffectivePermission)
        ensures
            r.model() == self.model(),
            self.wf() ==> r.wf(),
    {
        match self {
            EffectivePermission::All => EffectivePermission::All,
            EffectivePermission::AllowList(v) => EffectivePermission::AllowList(copy_ids(v)),
            EffectivePermission::NoneAllowed => EffectivePermission::NoneAllowed,
        }
    }
}

/// Whether some token of the list stands for every role.
pub open spec fn has_allow_all(tokens: Seq<String>) -> bool {
    exists|i: int| 0 <= i < tokens.len() && is_allow_all_token(#[trigger] tokens[i]@)
}

/// The targets of `universe` that some token names, once normalized.
pub open spec fn listed_targets(tokens: Seq<String>, universe: Set<Seq<char>>) -> Set<Seq<char>> {
    Set::new(
        |x: Seq<char>|
            universe.contains(x) && exists|i: int|
                0 <= i < tokens.len() && normalize(#[trigger] tokens[i]@) == x,
    )
}

/// The permission that a list of raw target tokens grants: every target if
/// a token is a wildcard, else the known targets it names, and none if it
/// names no known target.
pub open spec fn tokens_access(tokens: Seq<String>, universe: Set<Seq<char>>) -> Access {
    if has_allow_all(tokens) {
        Access::All
    } else if listed_targets(tokens, universe) == Set::<Seq<char>>::empty() {
        Access::Nothing
    } else {
        Access::Only(listed_targets(tokens, universe))
    }
}

/// Whether a token of the list is a wildcard.
pub fn any_allow_all(tokens: &Vec<String>) -> (r: bool)
    ensures
        r == has_allow_all(tokens@),
{
    let mut i: usize = 0;
    while i < tokens.len()
        invariant
            i <= tokens.len(),
            forall|k: int| 0 <= k < i ==> !is_allow_all_token(#[trigger] tokens@[k]@),
        decreases tokens.len() - i,
    {
        if matches_allow_all_token(tokens[i].as_str()) {
            return true;
        }
        i = i + 1;
    }
    false
}

/// The known targets that the tokens name, each once.
pub fn collect_listed_targets(tokens: &Vec<String>, targets: &Vec<String>) -> (r: Vec<String>)
    ensures
        distinct_ids(r@),
        ids_of(r@) == listed_targets(tokens@, ids_of(targets@)),
{
    let mut list: Vec<String> = Vec::new();
    let mut i: usize = 0;
    while i < tokens.len()
        invariant
            i <= tokens.len(),
            distinct_ids(list@),
            ids_of(list@) == listed_targets(tokens@.take(i as int), ids_of(targets@)),
        decreases tokens.len() - i,
    {
        let id = normalize_role_id(tokens[i].as_str());
        let ghost before = list@;
        if has_id(targets, id.as_str()) {
            add_id(&mut list, id);
        }
        i = i + 1;
        assert(ids_of(list@) =~= listed_targets(tokens@.take(i as int), ids_of(targets@))) by {
            let t = tokens@.take(i as int);
            assert(t[i - 1] == tokens@[i - 1]);
            assert forall|x: Seq<char>| #[trigger] listed_targets(tokens@.take(i - 1), ids_of(targets@)).contains(x)
                implies listed_targets(t, ids_of(targets@)).contains(x) by {
                let k = choose|k: int| 0 <= k < i - 1 && normalize(#[trigger] tokens@.take(i - 1)[k]@) == x;
                assert(t[k] == tokens@.take(i - 1)[k]);
            }
            assert forall|x: Seq<char>| #[trigger] listed_targets(t, ids_of(targets@)).contains(x)
                && x != normalize(tokens@[i - 1]@)
                implies listed_targets(tokens@.take(i - 1), ids_of(targets@)).contains(x) by {
                let k = choose|k: int| 0 <= k < i && normalize(#[trigger] t[k]@) == x;
                assert(k != i - 1);
                assert(t[k] == tokens@.take(i - 1)[k]);
            }
        }
    }
    assert(tokens@.take(i as int) =~= tokens@);
    list
}

/// The permission a list of raw target tokens grants over the given targets.
pub fn permission_from_tokens(tokens: &Vec<String>, targets: &Vec<String>) -> (r: EffectivePermission)
    ensures
        r.model() == tokens_access(tokens@, ids_of(targets@)),
        r.wf(),
{
    if any_allow_all(tokens) {
        return EffectivePermission::All;
    }
    let list = collect_listed_targets(tokens, targets);
    proof {
        lemma_ids_of_empty(list@);
    }
    if list.len() == 0 {
        EffectivePermission::NoneAllowed
    } else {
        EffectivePermission::AllowList(list)
    }
}

/// A caller's default permission: none where the defaults do not list it,
/// else what its tokens grant.
pub open spec fn default_access(
    defaults: Seq<(String, Vec<String>)>,
    caller: Seq<char>,
    universe: Set<Seq<char>>,
) -> Access {
    match lookup(defaults, caller) {
        None => Access::Nothing,
        Some(tokens) => tokens_access(tokens@, universe),
    }
}

/// The default permission of every caller, keyed by caller id.
pub fn build_default_permissions(
    defaults: &Vec<(String, Vec<String>)>,
    caller_ids: &Vec<String>,
    target_ids: &Vec<String>,
) -> (r: Vec<(String, EffectivePermission)>)
    ensures
        distinct_keys(r@),
        forall|c: Seq<char>| #[trigger] lookup(r@, c) is Some <==> ids_of(caller_ids@).contains(c),
        forall|c: Seq<char>| #[trigger] lookup(r@, c) matches Some(p) ==> p.wf() && p.model()
            == default_access(defaults@, c, ids_of(target_ids@)),
{
    let mut r: Vec<(String, EffectivePermission)> = Vec::new();
    let mut i: usize = 0;
    while i < caller_ids.len()
        invariant
            i <= caller_ids.len(),
            distinct_keys(r@),
            forall|c: Seq<char>| #[trigger] lookup(r@, c) is Some <==> ids_of(caller_ids@.take(i as int)).contains(c),
            forall|c: Seq<char>| #[trigger] lookup(r@, c) matches Some(p) ==> p.wf() && p.model()
                == default_access(defaults@, c, ids_of(target_ids@)),
        decreases caller_ids.len() - i,
    {
        let caller = &caller_ids[i];
        let perm = match find_last_key(defaults, caller.as_str()) {
            None => EffectivePermission::NoneAllowed,
            Some(k) => permission_from_tokens(&defaults[k].1, target_ids),
        };
        put_key(&mut r, caller.clone(), perm);
        i = i + 1;
        assert forall|c: Seq<char>| #[trigger] lookup(r@, c) is Some <==> ids_of(caller_ids@.take(i as int)).contains(c) by {
            let t = caller_ids@.take(i as int);
            let t0 = caller_ids@.take(i - 1);
            assert(t[i - 1] == caller_ids@[i - 1]);
            if ids_of(t0).contains(c) {
                let k = choose|k: int| 0 <= k < t0.len() && t0[k]@ == c;
                assert(t[k] == t0[k]);
            }
            if ids_of(t).contains(c) && c != caller_ids@[i - 1]@ {
                let k = choose|k: int| 0 <= k < t.len() && t[k]@ == c;
                assert(t[k] == t0[k]);
            }
        }
    }
    assert(caller_ids@.take(i as int) =~= caller_ids@);
    r
}

/// The tokens that name no known target, in order.
pub open spec fn unknown_tokens(tokens: Seq<String>, universe: Set<Seq<char>>) -> Seq<Seq<char>>
    decreases tokens.len(),
{
    if tokens.len() == 0 {
        Seq::empty()
    } else if universe.contains(normalize(tokens.last()@)) {
        unknown_tokens(tokens.drop_last(), universe)
    } else {
        unknown_tokens(tokens.drop_last(), universe).push(tokens.last()@)
    }
}

/// The override that a stored entry list gives `caller`: the last entry
/// whose raw caller normalizes to a known `caller` decides; a wildcard token
/// grants every target, else the known targets named.
pub open spec fn stored_override(
    entries: Seq<(String, Vec<String>)>,
    callers: Set<Seq<char>>,
    universe: Set<Seq<char>>,
    caller: Seq<char>,
) -> Option<Access>
    decreases entries.len(),
{
    if entries.len() == 0 {
        None
    } else if normalize(entries.last().0@) == caller && callers.contains(caller) {
        if has_allow_all(entries.last().1@) {
            Some(Access::All)
        } else {
            Some(Access::Only(listed_targets(entries.last().1@, universe)))
        }
    } else {
        stored_override(entries.drop_last(), callers, universe, caller)
    }
}

/// The warnings that reading a stored entry list raises, in order: one per
/// unknown caller, and one per known caller whose list names unknown targets.
pub open spec fn override_warnings(
    entries: Seq<(String, Vec<String>)>,
    callers: Set<Seq<char>>,
    universe: Set<Seq<char>>,
) -> Seq<Seq<char>>
    decreases entries.len(),
{
    if entries.len() == 0 {
        Seq::empty()
    } else {
        let raw = entries.last().0@;
        let tokens = entries.last().1@;
        let prev = override_warnings(entries.drop_last(), callers, universe);
        if !callers.contains(normalize(raw)) {
            prev.push("Unknown caller role: "@ + raw)
        } else if has_allow_all(tokens) || unknown_tokens(tokens, universe).len() == 0 {
            prev
        } else {
            prev.push(
                "Unknown targets for "@ + raw + ": "@ + join_with(
                    unknown_tokens(tokens, universe),
                    ", "@,
                ),
            )
        }
    }
}

/// The known targets that the tokens name, and the tokens that name none.
fn split_tokens(tokens: &Vec<String>, targets: &Vec<String>) -> (r: (Vec<String>, Vec<String>))
    ensures
        distinct_ids(r.0@),
        ids_of(r.0@) == listed_targets(tokens@, ids_of(targets@)),
        texts(r.1@) == unknown_tokens(tokens@, ids_of(targets@)),
{
    let known = collect_listed_targets(tokens, targets);
    let mut unknown: Vec<String> = Vec::new();
    let mut i: usize = 0;
    while i < tokens.len()
        invariant
            i <= tokens.len(),
            texts(unknown@) == unknown_tokens(tokens@.take(i as int), ids_of(targets@)),
        decreases tokens.len() - i,
    {
        let id = normalize_role_id(tokens[i].as_str());
        let ghost before = unknown@;
        if !has_id(targets, id.as_str()) {
            unknown.push(tokens[i].clone());
            assert(texts(unknown@) =~= texts(before).push(tokens@[i as int]@));
        }
        i = i + 1;
        assert(tokens@.take(i as int).drop_last() =~= tokens@.take(i - 1));
    }
    assert(tokens@.take(i as int) =~= tokens@);
    (known, unknown)
}

/// Reads stored overrides against the known callers and targets. Entries of
/// unknown callers are dropped, as are unknown targets; each drop is
/// reported as a warning rather than failing.
pub fn parse_overrides(
    allow_overrides: &Vec<(String, Vec<String>)>,
    caller_ids: &Vec<String>,
    target_ids: &Vec<String>,
) -> (r: (Vec<(String, OverridePermission)>, Vec<String>))
    ensures
        distinct_keys(r.0@),
        forall|c: Seq<char>| #[trigger] lookup(r.0@, c) matches Some(p) ==> p.wf(),
        forall|c: Seq<char>| #[trigger] lookup(r.0@, c) == None::<OverridePermission> <==> stored_override(
            allow_overrides@,
            ids_of(caller_ids@),
            ids_of(target_ids@),
            c,
        ) is None,
        forall|c: Seq<char>| #[trigger] lookup(r.0@, c) matches Some(p) ==> stored_override(
            allow_overrides@,
            ids_of(caller_ids@),
            ids_of(target_ids@),
            c,
        ) == Some(p.model()),
        texts(r.1@) == override_warnings(allow_overrides@, ids_of(caller_ids@), ids_of(target_ids@)),
{
    let ghost callers = ids_of(caller_ids@);
    let ghost universe = ids_of(target_ids@);
    let mut overrides: Vec<(String, OverridePermission)> = Vec::new();
    let mut warnings: Vec<String> = Vec::new();
    let mut i: usize = 0;
    while i < allow_overrides.len()
        invariant
            i <= allow_overrides.len(),
            callers == ids_of(caller_ids@),
            universe == ids_of(target_ids@),
            distinct_keys(overrides@),
            forall|c: Seq<char>| #[trigger] lookup(overrides@, c) matches Some(p) ==> p.wf(),
            forall|c: Seq<char>| #[trigger] lookup(overrides@, c) == None::<OverridePermission> <==> stored_override(
                allow_overrides@.take(i as int),
                callers,
                universe,
                c,
            ) is None,
            forall|c: Seq<char>| #[trigger] lookup(overrides@, c) matches Some(p) ==> stored_override(
                allow_overrides@.take(i as int),
                callers,
                universe,
                c,
            ) == Some(p.model()),
            texts(warnings@) == override_warnings(allow_overrides@.take(i as int), callers, universe),
        decreases allow_overrides.len() - i,
    {
        let ghost prefix = allow_overrides@.take(i as int);
        let ghost next = allow_overrides@.take(i + 1);
        assert(next.drop_last() =~= prefix);
        assert(next.last() == allow_overrides@[i as int]);
        let caller_raw = &allow_overrides[i].0;
        let allowed_raw = &allow_overrides[i].1;
        let caller = normalize_role_id(caller_raw.as_str());
        let ghost before = warnings@;
        if !has_id(caller_ids, caller.as_str()) {
            let mut msg: Vec<char> = Vec::new();
            push_text(&mut msg, "Unknown caller role: ");
            push_text(&mut msg, caller_raw.as_str());
            warnings.push(string_of(&msg));
            assert(texts(warnings@) =~= texts(before).push("Unknown caller role: "@ + caller_raw@));
        } else if any_allow_all(allowed_raw) {
            put_key(&mut overrides, caller, OverridePermission::All);
        } else {
            let (known, unknown) = split_tokens(allowed_raw, target_ids);
            if unknown.len() > 0 {
                let mut msg: Vec<char> = Vec::new();
                push_text(&mut msg, "Unknown targets for ");
                push_text(&mut msg, caller_raw.as_str());
                push_text(&mut msg, ": ");
                let joined = join_texts(&unknown, ", ");
                push_text(&mut msg, joined.as_str());
                warnings.push(string_of(&msg));
                assert(texts(warnings@) =~= texts(before).push(
                    "Unknown targets for "@ + caller_raw@ + ": "@ + join_with(texts(unknown@), ", "@),
                ));
            } else {
                assert(texts(warnings@) =~= texts(before));
            }
            put_key(&mut overrides, caller, OverridePermission::AllowList(known));
        }
        i = i + 1;
    }
    assert(allow_overrides@.take(i as int) =~= allow_overrides@);
    (overrides, warnings)
}

/// Defaults name only known targets.
pub proof fn lemma_default_access_within(
    defaults: Seq<(String, Vec<String>)>,
    caller: Seq<char>,
    universe: Set<Seq<char>>,
)
    ensures
        within(default_access(defaults, caller, universe), universe),
{
    if let Some(tokens) = lookup(defaults, caller) {
        assert(listed_targets(tokens@, universe).subset_of(universe));
    }
}

/// Stored overrides, once read, name only known targets.
pub proof fn lemma_stored_override_within(
    entries: Seq<(String, Vec<String>)>,
    callers: Set<Seq<char>>,
    universe: Set<Seq<char>>,
    caller: Seq<char>,
)
    ensures
        stored_override(entries, callers, universe, caller) matches Some(a) ==> within(a, universe),
    decreases entries.len(),
{
    if entries.len() > 0 {
        assert(listed_targets(entries.last().1@, universe).subset_of(universe));
        lemma_stored_override_within(entries.drop_last(), callers, universe, caller);
    }
}

} // verus!
