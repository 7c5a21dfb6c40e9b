//! The spawn-permission editor: a caller list and a target list, one
//! selection in each, and the operations that edit the caller's override.
use vstd::prelude::*;

use crate::keyed::{
    copy_ids, distinct_ids, distinct_keys, drop_id, find_key, has_id, ids_of, lemma_ids_of_empty,
    lemma_lookup, lookup, put_key, remove_key, add_id,
};
use crate::permissions::{
    Access, EffectivePermission, OverridePermission, allowed_set, effective_access, within,
};
use crate::ids::normalize;
use crate::permissions::{
    build_default_permissions, default_access, lemma_default_access_within,
    lemma_stored_override_within, override_warnings, parse_overrides, stored_override,
};
use crate::registry::{PluginRegistry, role_ids};
use crate::text::{ascending, join_texts, join_with, sorted_ids, texts};

verus! {

/// Which list the selection keys act on.
#[derive(Clone, Copy, Debug, PartialEq, Eq, Structural)]
pub enum FocusPanel {
    Callers,
    Targets,
}

/// Where an effective permission comes from.
#[derive(Clone, Copy, Debug, PartialEq, Eq, Structural)]
pub enum PermissionOrigin {
    Default,
    Override,
}

impl PermissionOrigin {
    pub fn label(&self) -> (r: &'static str)
        ensures
            r@ == (match self {
                PermissionOrigin::Default => "default"@,
                PermissionOrigin::Override => "override"@,
            }),
    {
        match self {
            PermissionOrigin::Default => "default",
            PermissionOrigin::Override => "override",
        }
    }
}

/// A role as the editor lists it.
#[derive(Clone, Debug, PartialEq, Eq)]
pub struct RoleSpec {
    pub id: String,
    pub label: String,
}

/// An input to the editor.
#[derive(Clone, Copy, Debug, PartialEq, Eq, Structural)]
pub enum EditorKey {
    /// Select the previous row of the focused list, wrapping around.
    Up,
    /// Select the next row of the focused list, wrapping around.
    Down,
    /// Focus the other list.
    SwitchFocus,
    /// On the caller list, focus the targets; on the target list, toggle the
    /// selected target.
    Activate,
    /// Let the selected caller spawn every target.
    AllowAll,
    /// Drop the selected caller's override.
    UseDefault,
    /// Finish, handing back the overrides if they changed.
    Save,
    /// Finish without saving.
    Quit,
}

/// The selection after moving up in a list of `len` rows.
pub open spec fn wrap_up(sel: Option<usize>, len: nat) -> Option<usize> {
    if len == 0 {
        None
    } else {
        match sel {
            Some(i) => if i > 0 {
                Some((i - 1) as usize)
            } else {
                Some((len - 1) as usize)
            },
            None => Some(0),
        }
    }
}

/// The selection after moving down in a list of `len` rows.
pub open spec fn wrap_down(sel: Option<usize>, len: nat) -> Option<usize> {
    if len == 0 {
        None
    } else {
        match sel {
            Some(i) => if i + 1 < len {
                Some((i + 1) as usize)
            } else {
                Some(0)
            },
            None => Some(0),
        }
    }
}

fn move_up_wrap(sel: Option<usize>, len: usize) -> (r: Option<usize>)
    ensures
        r == wrap_up(sel, len as nat),
{
    if len == 0 {
        None
    } else {
        match sel {
            Some(i) => if i > 0 {
                Some(i - 1)
            } else {
                Some(len - 1)
            },
            None => Some(0),
        }
    }
}

fn move_down_wrap(sel: Option<usize>, len: usize) -> (r: Option<usize>)
    ensures
        r == wrap_down(sel, len as nat),
{
    if len == 0 {
        None
    } else {
        match sel {
            Some(i) => if i < len - 1 {
                Some(i + 1)
            } else {
                Some(0)
            },
            None => Some(0),
        }
    }
}

/// `cur` with `t` added if it was missing, removed if it was there.
pub open spec fn flip(cur: Set<Seq<char>>, t: Seq<char>) -> Set<Seq<char>> {
    if cur.contains(t) {
        cur.remove(t)
    } else {
        cur.insert(t)
    }
}

/// The model of a stored override.
pub open spec fn override_model(e: Seq<(String, OverridePermission)>, c: Seq<char>) -> Option<Access> {
    match lookup(e, c) {
        Some(p) => Some(p.model()),
        None => None,
    }
}

/// Whether `tokens` is what the save action writes for one override: the
/// wildcard for `All`, else each allowed id once, in ascending order.
pub open spec fn saved_as(p: OverridePermission, tokens: Seq<String>) -> bool {
    match p {
        OverridePermission::All => texts(tokens) == seq!["*"@],
        OverridePermission::AllowList(v) => {
            &&& tokens.len() == v.len()
            &&& distinct_ids(tokens)
            &&& ids_of(tokens) == ids_of(v@)
            &&& ascending(texts(tokens))
        },
    }
}

/// The spawn-permission editor.
pub struct AgentSpawnConfigView {
    pub focus: FocusPanel,
    pub complete: bool,
    pub config_path: String,
    pub active_agent: String,
    /// Problems found in the stored overrides, which were skipped.
    pub warnings: Vec<String>,
    pub callers: Vec<RoleSpec>,
    pub targets: Vec<RoleSpec>,
    pub all_targets: Vec<String>,
    pub default_permissions: Vec<(String, EffectivePermission)>,
    pub caller_selected: Option<usize>,
    pub target_selected: Option<usize>,
    pub overrides: Vec<(String, OverridePermission)>,
    pub initial_overrides: Vec<(String, OverridePermission)>,
}

impl AgentSpawnConfigView {
    pub open spec fn wf(&self) -> bool {
        &&& distinct_ids(self.all_targets@)
        &&& distinct_keys(self.default_permissions@)
        &&& distinct_keys(self.overrides@)
        &&& distinct_keys(self.initial_overrides@)
        &&& forall|c: Seq<char>| #[trigger]
            lookup(self.default_permissions@, c) matches Some(p) ==> p.wf()
        &&& forall|c: Seq<char>| #[trigger] lookup(self.overrides@, c) matches Some(p) ==> p.wf()
        &&& forall|c: Seq<char>| #[trigger]
            lookup(self.initial_overrides@, c) matches Some(p) ==> p.wf()
        &&& self.caller_selected matches Some(i) ==> i < self.callers.len()
        &&& self.target_selected matches Some(i) ==> i < self.targets.len()
        &&& texts(self.all_targets@) == spec_role_ids(self.targets@)
        &&& forall|c: Seq<char>| #[trigger]
            lookup(self.default_permissions@, c) matches Some(p) ==> within(p.model(), self.universe())
        &&& forall|c: Seq<char>| #[trigger]
            lookup(self.overrides@, c) matches Some(p) ==> within(p.model(), self.universe())
        &&& forall|c: Seq<char>| #[trigger]
            lookup(self.initial_overrides@, c) matches Some(p) ==> within(p.model(), self.universe())
    }

    /// The ids of every target.
    pub open spec fn universe(&self) -> Set<Seq<char>> {
        ids_of(self.all_targets@)
    }

    pub open spec fn default_of(&self, c: Seq<char>) -> Access {
        match lookup(self.default_permissions@, c) {
            Some(p) => p.model(),
            None => Access::Nothing,
        }
    }

    pub open spec fn override_of(&self, c: Seq<char>) -> Option<Access> {
        override_model(self.overrides@, c)
    }

    pub open spec fn effective_of(&self, c: Seq<char>) -> Access {
        effective_access(self.override_of(c), self.default_of(c))
    }

    pub open spec fn selected_caller(&self) -> Option<Seq<char>> {
        match self.caller_selected {
            Some(i) => if i < self.callers.len() {
                Some(self.callers[i as int].id@)
            } else {
                None
            },
            None => None,
        }
    }

    pub open spec fn selected_target(&self) -> Option<Seq<char>> {
        match self.target_selected {
            Some(i) => if i < self.targets.len() {
                Some(self.targets[i as int].id@)
            } else {
                None
            },
            None => None,
        }
    }

    /// The overrides differ from those the editor started with.
    pub open spec fn dirty(&self) -> bool {
        exists|c: Seq<char>|
            #[trigger] override_model(self.overrides@, c) != override_model(
                self.initial_overrides@,
                c,
            )
    }

    /// `next` differs from `self` in the overrides alone.
    pub open spec fn keeps_all_but_overrides(&self, next: Self) -> bool {
        &&& next.focus == self.focus
        &&& next.complete == self.complete
        &&& next.config_path == self.config_path
        &&& next.active_agent == self.active_agent
        &&& next.warnings == self.warnings
        &&& next.callers == self.callers
        &&& next.targets == self.targets
        &&& next.all_targets == self.all_targets
        &&& next.default_permissions == self.default_permissions
        &&& next.caller_selected == self.caller_selected
        &&& next.target_selected == self.target_selected
        &&& next.initial_overrides == self.initial_overrides
    }

    /// `next` holds the overrides of `self`, but for caller `c`, whose allowed
    /// set is now `s`: stored as an override unless it equals the default.
    pub open spec fn sets_allowed(&self, next: Self, c: Seq<char>, s: Set<Seq<char>>) -> bool {
        &&& forall|q: Seq<char>| q != c ==> #[trigger] lookup(next.overrides@, q) == lookup(
            self.overrides@,
            q,
        )
        &&& next.override_of(c) == if s == allowed_set(self.default_of(c), self.universe()) {
            None::<Access>
        } else {
            Some(Access::Only(s))
        }
    }

    /// `next` holds the overrides of `self`, but for caller `c`, which now
    /// has the override `ov`.
    pub open spec fn sets_override(&self, next: Self, c: Seq<char>, ov: Option<Access>) -> bool {
        &&& forall|q: Seq<char>| q != c ==> #[trigger] lookup(next.overrides@, q) == lookup(
            self.overrides@,
            q,
        )
        &&& next.override_of(c) == ov
    }

    /// The state after the selected target is toggled for the selected
    /// caller; with either unselected, nothing changes.
    pub open spec fn toggled(&self, next: Self) -> bool {
        &&& self.keeps_all_but_overrides(next)
        &&& match (self.selected_caller(), self.selected_target()) {
            (Some(c), Some(t)) => self.sets_allowed(
                next,
                c,
                flip(allowed_set(self.effective_of(c), self.universe()), t),
            ),
            _ => next.overrides == self.overrides,
        }
    }

    /// The state after "allow all" on the selected caller.
    pub open spec fn allowed_all(&self, next: Self) -> bool {
        &&& self.keeps_all_but_overrides(next)
        &&& match self.selected_caller() {
            Some(c) => self.sets_override(
                next,
                c,
                if self.default_of(c) is All {
                    None
                } else {
                    Some(Access::All)
                },
            ),
            None => next.overrides == self.overrides,
        }
    }

    /// The state after "use default" on the selected caller.
    pub open spec fn reset(&self, next: Self) -> bool {
        &&& self.keeps_all_but_overrides(next)
        &&& match self.selected_caller() {
            Some(c) => self.sets_override(next, c, None),
            None => next.overrides == self.overrides,
        }
    }
}

/// How the editor shows a permission: `*`, `(none)`, or the allowed ids
/// joined with `, `.
pub open spec fn described(p: EffectivePermission) -> Seq<char> {
    match p {
        EffectivePermission::All => "*"@,
        EffectivePermission::NoneAllowed => "(none)"@,
        EffectivePermission::AllowList(v) => if v.len() == 0 {
            "(none)"@
        } else {
            join_with(texts(v@), ", "@)
        },
    }
}

fn same_override(p: &OverridePermission, q: &OverridePermission) -> (r: bool)
    ensures
        r == (p.model() == q.model()),
{
    match (p, q) {
        (OverridePermission::All, OverridePermission::All) => true,
        (OverridePermission::AllowList(a), OverridePermission::AllowList(b)) => crate::keyed::same_ids(a, b),
        _ => false,
    }
}

fn same_override_maps(a: &Vec<(String, OverridePermission)>, b: &Vec<(String, OverridePermission)>) -> (r: bool)
    requires
        distinct_keys(a@),
        distinct_keys(b@),
    ensures
        r == (forall|c: Seq<char>| #[trigger] override_model(a@, c) == override_model(b@, c)),
{
    let mut i: usize = 0;
    while i < a.len()
        invariant
            i <= a.len(),
            distinct_keys(a@),
            distinct_keys(b@),
            forall|k: int| 0 <= k < i ==> override_model(a@, #[trigger] a@[k].0@) == override_model(b@, a@[k].0@),
        decreases a.len() - i,
    {
        proof {
            lemma_lookup(a@, a@[i as int].0@);
        }
        match find_key(b, a[i].0.as_str()) {
            None => {
                return false;
            },
            Some(j) => {
                if !same_override(&a[i].1, &b[j].1) {
                    return false;
                }
            },
        }
        i = i + 1;
    }
    let mut j: usize = 0;
    while j < b.len()
        invariant
            j <= b.len(),
            distinct_keys(a@),
            distinct_keys(b@),
            forall|k: int| 0 <= k < a.len() ==> override_model(a@, #[trigger] a@[k].0@) == override_model(b@, a@[k].0@),
            forall|k: int| 0 <= k < j ==> lookup(a@, #[trigger] b@[k].0@) is Some,
        decreases b.len() - j,
    {
        proof {
            lemma_lookup(b@, b@[j as int].0@);
        }
        match find_key(a, b[j].0.as_str()) {
            None => {
                assert(override_model(a@, b@[j as int].0@) != override_model(b@, b@[j as int].0@));
                return false;
            },
            Some(_) => {},
        }
        j = j + 1;
    }
    assert forall|c: Seq<char>| #[trigger] override_model(a@, c) == override_model(b@, c) by {
        lemma_lookup(a@, c);
        lemma_lookup(b@, c);
        if exists|k: int| 0 <= k < a.len() && a@[k].0@ == c {
            let k = choose|k: int| 0 <= k < a.len() && a@[k].0@ == c;
            assert(override_model(a@, a@[k].0@) == override_model(b@, a@[k].0@));
        } else if exists|k: int| 0 <= k < b.len() && b@[k].0@ == c {
            let k = choose|k: int| 0 <= k < b.len() && b@[k].0@ == c;
            assert(lookup(a@, b@[k].0@) is Some);
        }
    }
    true
}

impl AgentSpawnConfigView {
    pub fn selected_caller_id(&self) -> (r: Option<String>)
        ensures
            match r {
                Some(c) => self.selected_caller() == Some(c@),
                None => self.selected_caller() is None,
            },
    {
        match self.caller_selected {
            Some(i) => if i < self.callers.len() {
                Some(self.callers[i].id.clone())
            } else {
                None
            },
            None => None,
        }
    }

    /// The default permission of `caller`; none for an unknown caller.
    pub fn default_permission(&self, caller: &str) -> (r: EffectivePermission)
        requires
            self.wf(),
        ensures
            r.model() == self.default_of(caller@),
            r.wf(),
    {
        match find_key(&self.default_permissions, caller) {
            Some(i) => self.default_permissions[i].1.duplicate(),
            None => EffectivePermission::NoneAllowed,
        }
    }

    /// The permission in force for `caller`, and whether it is the default or
    /// an override.
    pub fn effective_permission(&self, caller: &str) -> (r: (EffectivePermission, PermissionOrigin))
        requires
            self.wf(),
        ensures
            r.0.model() == self.effective_of(caller@),
            r.0.wf(),
            r.1 == (if self.override_of(caller@) is Some {
                PermissionOrigin::Override
            } else {
                PermissionOrigin::Default
            }),
    {
        match find_key(&self.overrides, caller) {
            None => (self.default_permission(caller), PermissionOrigin::Default),
            Some(i) => {
                let effective = match &self.overrides[i].1 {
                    OverridePermission::All => EffectivePermission::All,
                    OverridePermission::AllowList(allowed) => {
                        proof {
                            lemma_ids_of_empty(allowed@);
                        }
                        if allowed.len() == 0 {
                            EffectivePermission::NoneAllowed
                        } else {
                            EffectivePermission::AllowList(copy_ids(allowed))
                        }
                    },
                };
                (effective, PermissionOrigin::Override)
            },
        }
    }

    pub fn describe_permission(permission: &EffectivePermission) -> (r: String)
        ensures
            r@ == described(*permission),
    {
        match permission {
            EffectivePermission::All => "*".to_string(),
            EffectivePermission::NoneAllowed => "(none)".to_string(),
            EffectivePermission::AllowList(allowed) => if allowed.len() == 0 {
                "(none)".to_string()
            } else {
                join_texts(allowed, ", ")
            },
        }
    }

    /// Stores `allow_list` as the override of `caller`, or drops the override
    /// where the list equals the caller's default.
    pub fn set_override_allowlist_normalized(&mut self, caller: &str, allow_list: Vec<String>)
        requires
            old(self).wf(),
            distinct_ids(allow_list@),
            ids_of(allow_list@).subset_of(old(self).universe()),
        ensures
            final(self).wf(),
            old(self).keeps_all_but_overrides(*final(self)),
            old(self).sets_allowed(*final(self), caller@, ids_of(allow_list@)),
    {
        let default = self.default_permission(caller);
        let equal = match &default {
            EffectivePermission::All => crate::keyed::same_ids(&allow_list, &self.all_targets),
            EffectivePermission::AllowList(allowed) => crate::keyed::same_ids(&allow_list, allowed),
            EffectivePermission::NoneAllowed => {
                proof {
                    lemma_ids_of_empty(allow_list@);
                }
                allow_list.len() == 0
            },
        };
        if equal {
            remove_key(&mut self.overrides, caller);
        } else {
            put_key(&mut self.overrides, caller.to_string(), OverridePermission::AllowList(allow_list));
        }
    }

    /// Drops the selected caller's override.
    pub fn clear_override_for_selected_caller(&mut self)
        requires
            old(self).wf(),
        ensures
            final(self).wf(),
            old(self).reset(*final(self)),
    {
        if let Some(caller) = self.selected_caller_id() {
            remove_key(&mut self.overrides, caller.as_str());
        }
    }

    /// Lets the selected caller spawn every target: an `All` override, or no
    /// override where the default already allows all.
    pub fn set_allow_all_for_selected_caller(&mut self)
        requires
            old(self).wf(),
        ensures
            final(self).wf(),
            old(self).allowed_all(*final(self)),
    {
        if let Some(caller) = self.selected_caller_id() {
            let default = self.default_permission(caller.as_str());
            if let EffectivePermission::All = default {
                remove_key(&mut self.overrides, caller.as_str());
            } else {
                put_key(&mut self.overrides, caller, OverridePermission::All);
            }
        }
    }

    /// Flips the selected target in the selected caller's allowed set, then
    /// stores the result as with `set_override_allowlist_normalized`.
    pub fn toggle_selected_target(&mut self)
        requires
            old(self).wf(),
        ensures
            final(self).wf(),
            old(self).toggled(*final(self)),
    {
        let caller = match self.selected_caller_id() {
            Some(c) => c,
            None => return ,
        };
        let target_idx = match self.target_selected {
            Some(i) => i,
            None => return ,
        };
        if target_idx >= self.targets.len() {
            return ;
        }
        let target = self.targets[target_idx].id.clone();
        let (current, _) = self.effective_permission(caller.as_str());
        let mut allow_list = match current {
            EffectivePermission::All => copy_ids(&self.all_targets),
            EffectivePermission::AllowList(allowed) => allowed,
            EffectivePermission::NoneAllowed => {
                let empty: Vec<String> = Vec::new();
                assert(ids_of(empty@) =~= Set::<Seq<char>>::empty());
                empty
            },
        };
        proof {
            let u = self.universe();
            let c = caller@;
            assert(within(self.default_of(c), u)) by {
                if let Some(p) = lookup(self.default_permissions@, c) {
                }
            }
            assert(within(self.effective_of(c), u)) by {
                if let Some(p) = lookup(self.overrides@, c) {
                }
            }
            assert(ids_of(allow_list@).subset_of(u));
            assert(spec_role_ids(self.targets@).len() == self.targets@.len());
            assert(texts(self.all_targets@).len() == self.all_targets@.len());
            assert(spec_role_ids(self.targets@)[target_idx as int] == target@);
            assert(texts(self.all_targets@)[target_idx as int] == target@);
            assert(self.all_targets@[target_idx as int]@ == target@);
            assert(u.contains(target@));
        }
        if has_id(&allow_list, target.as_str()) {
            drop_id(&mut allow_list, target.as_str());
        } else {
            add_id(&mut allow_list, target);
        }
        self.set_override_allowlist_normalized(caller.as_str(), allow_list);
    }

    /// Whether the overrides differ from those the editor started with.
    pub fn is_dirty(&self) -> (r: bool)
        requires
            self.wf(),
        ensures
            r == self.dirty(),
    {
        !same_override_maps(&self.overrides, &self.initial_overrides)
    }

    /// The overrides as stored: caller id and tokens, with `*` for `All`.
    pub fn build_allow_overrides(&self) -> (r: Vec<(String, Vec<String>)>)
        requires
            self.wf(),
        ensures
            r.len() == self.overrides.len(),
            forall|i: int| 0 <= i < r.len() ==> (#[trigger] r[i]).0@ == self.overrides[i].0@ && saved_as(
                self.overrides[i].1,
                r[i].1@,
            ),
    {
        let mut r: Vec<(String, Vec<String>)> = Vec::new();
        let mut i: usize = 0;
        while i < self.overrides.len()
            invariant
                i <= self.overrides.len(),
                r.len() == i,
                self.wf(),
                forall|k: int| 0 <= k < i ==> (#[trigger] r[k]).0@ == self.overrides[k].0@ && saved_as(
                    self.overrides[k].1,
                    r[k].1@,
                ),
            decreases self.overrides.len() - i,
        {
            proof {
                lemma_lookup(self.overrides@, self.overrides@[i as int].0@);
            }
            let tokens = match &self.overrides[i].1 {
                OverridePermission::All => {
                    let v = vec!["*".to_string()];
                    assert(texts(v@) =~= seq!["*"@]);
                    v
                },
                OverridePermission::AllowList(allowed) => sorted_ids(allowed),
            };
            r.push((self.overrides[i].0.clone(), tokens));
            i = i + 1;
        }
        r
    }
}

impl AgentSpawnConfigView {
    /// Selects the first caller and the first target, where there are any.
    pub fn initialize_selection(&mut self)
        ensures
            *final(self) == (AgentSpawnConfigView {
                caller_selected: if old(self).callers.len() == 0 {
                    None
                } else {
                    Some(0)
                },
                target_selected: if old(self).callers.len() == 0 || old(self).targets.len() == 0 {
                    None
                } else {
                    Some(0)
                },
                ..*old(self)
            }),
    {
        if self.callers.len() == 0 {
            self.caller_selected = None;
            self.target_selected = None;
        } else {
            self.caller_selected = Some(0);
            self.target_selected = if self.targets.len() == 0 {
                None
            } else {
                Some(0)
            };
        }
    }

    pub fn move_up(&mut self)
        ensures
            *final(self) == (if old(self).focus is Callers {
                AgentSpawnConfigView {
                    caller_selected: wrap_up(old(self).caller_selected, old(self).callers@.len()),
                    ..*old(self)
                }
            } else {
                AgentSpawnConfigView {
                    target_selected: wrap_up(old(self).target_selected, old(self).targets@.len()),
                    ..*old(self)
                }
            }),
    {
        match self.focus {
            FocusPanel::Callers => {
                self.caller_selected = move_up_wrap(self.caller_selected, self.callers.len());
            },
            FocusPanel::Targets => {
                self.target_selected = move_up_wrap(self.target_selected, self.targets.len());
            },
        }
    }

    pub fn move_down(&mut self)
        ensures
            *final(self) == (if old(self).focus is Callers {
                AgentSpawnConfigView {
                    caller_selected: wrap_down(old(self).caller_selected, old(self).callers@.len()),
                    ..*old(self)
                }
            } else {
                AgentSpawnConfigView {
                    target_selected: wrap_down(old(self).target_selected, old(self).targets@.len()),
                    ..*old(self)
                }
            }),
    {
        match self.focus {
            FocusPanel::Callers => {
                self.caller_selected = move_down_wrap(self.caller_selected, self.callers.len());
            },
            FocusPanel::Targets => {
                self.target_selected = move_down_wrap(self.target_selected, self.targets.len());
            },
        }
    }

    pub fn toggle_focus(&mut self)
        ensures
            *final(self) == (AgentSpawnConfigView {
                focus: if old(self).focus is Callers {
                    FocusPanel::Targets
                } else {
                    FocusPanel::Callers
                },
                ..*old(self)
            }),
    {
        self.focus = match self.focus {
            FocusPanel::Callers => FocusPanel::Targets,
            FocusPanel::Targets => FocusPanel::Callers,
        };
    }

    pub fn is_complete(&self) -> (r: bool)
        ensures
            r == self.complete,
    {
        self.complete
    }

    /// Closes the editor without saving.
    pub fn on_ctrl_c(&mut self)
        ensures
            *final(self) == (AgentSpawnConfigView { complete: true, ..*old(self) }),
    {
        self.complete = true;
    }

    /// Applies one input. Saving finishes the editor and hands back the
    /// overrides to persist, but only when they changed; quitting finishes
    /// it with nothing to persist.
    pub fn handle_key(&mut self, key: EditorKey) -> (r: Option<Vec<(String, Vec<String>)>>)
        requires
            old(self).wf(),
        ensures
            final(self).wf(),
            !(key is Save) ==> r is None,
            key is Up ==> *final(self) == (if old(self).focus is Callers {
                AgentSpawnConfigView {
                    caller_selected: wrap_up(old(self).caller_selected, old(self).callers@.len()),
                    ..*old(self)
                }
            } else {
                AgentSpawnConfigView {
                    target_selected: wrap_up(old(self).target_selected, old(self).targets@.len()),
                    ..*old(self)
                }
            }),
            key is Down ==> *final(self) == (if old(self).focus is Callers {
                AgentSpawnConfigView {
                    caller_selected: wrap_down(old(self).caller_selected, old(self).callers@.len()),
                    ..*old(self)
                }
            } else {
                AgentSpawnConfigView {
                    target_selected: wrap_down(old(self).target_selected, old(self).targets@.len()),
                    ..*old(self)
                }
            }),
            key is SwitchFocus ==> *final(self) == (AgentSpawnConfigView {
                focus: if old(self).focus is Callers {
                    FocusPanel::Targets
                } else {
                    FocusPanel::Callers
                },
                ..*old(self)
            }),
            key is Activate && old(self).focus is Callers ==> *final(self) == (AgentSpawnConfigView {
                focus: FocusPanel::Targets,
                ..*old(self)
            }),
            key is Activate && old(self).focus is Targets ==> old(self).toggled(*final(self)),
            key is AllowAll ==> old(self).allowed_all(*final(self)),
            key is UseDefault ==> old(self).reset(*final(self)),
            key is Save ==> *final(self) == (AgentSpawnConfigView { complete: true, ..*old(self) })
                && (r is Some <==> old(self).dirty()),
            key is Save ==> (r matches Some(m) ==> m.len() == old(self).overrides.len() && forall|i: int|
                0 <= i < m.len() ==> (#[trigger] m[i]).0@ == old(self).overrides[i].0@ && saved_as(
                    old(self).overrides[i].1,
                    m[i].1@,
                )),
            key is Quit ==> *final(self) == (AgentSpawnConfigView { complete: true, ..*old(self) }),
    {
        match key {
            EditorKey::Up => {
                self.move_up();
                None
            },
            EditorKey::Down => {
                self.move_down();
                None
            },
            EditorKey::SwitchFocus => {
                self.toggle_focus();
                None
            },
            EditorKey::Activate => {
                match self.focus {
                    FocusPanel::Callers => {
                        self.focus = FocusPanel::Targets;
                    },
                    FocusPanel::Targets => {
                        self.toggle_selected_target();
                    },
                }
                None
            },
            EditorKey::AllowAll => {
                self.set_allow_all_for_selected_caller();
                None
            },
            EditorKey::UseDefault => {
                self.clear_override_for_selected_caller();
                None
            },
            EditorKey::Save => {
                let saved = if self.is_dirty() {
                    Some(self.build_allow_overrides())
                } else {
                    None
                };
                self.complete = true;
                saved
            },
            EditorKey::Quit => {
                self.complete = true;
                None
            },
        }
    }
}

/// The ids of `ids` that name a known role, normalized, each once, in order.
pub open spec fn listed_roles(ids: Seq<String>, known: Seq<Seq<char>>) -> Seq<Seq<char>>
    decreases ids.len(),
{
    if ids.len() == 0 {
        Seq::empty()
    } else {
        let prev = listed_roles(ids.drop_last(), known);
        let k = normalize(ids.last()@);
        if known.contains(k) && !prev.contains(k) {
            prev.push(k)
        } else {
            prev
        }
    }
}

pub open spec fn role_id_strings(v: Seq<RoleSpec>) -> Seq<String> {
    v.map_values(|r: RoleSpec| r.id)
}

pub open spec fn spec_role_ids(v: Seq<RoleSpec>) -> Seq<Seq<char>> {
    v.map_values(|r: RoleSpec| r.id@)
}

proof fn lemma_listed_roles_distinct(ids: Seq<String>, known: Seq<Seq<char>>)
    ensures
        forall|a: int, b: int|
            0 <= a < b < listed_roles(ids, known).len() ==> listed_roles(ids, known)[a]
                != listed_roles(ids, known)[b],
    decreases ids.len(),
{
    if ids.len() > 0 {
        lemma_listed_roles_distinct(ids.drop_last(), known);
        let prev = listed_roles(ids.drop_last(), known);
        let k = normalize(ids.last()@);
        if known.contains(k) && !prev.contains(k) {
            let l = prev.push(k);
            assert forall|a: int, b: int| 0 <= a < b < l.len() implies l[a] != l[b] by {
                assert(l[a] == prev[a]);
                if b < prev.len() {
                    assert(l[b] == prev[b]);
                }
            }
        }
    }
}

/// The roles of the registry that `ids` names, each once, in order.
pub fn build_role_specs(ids: &Vec<String>, plugins: &PluginRegistry) -> (r: Vec<RoleSpec>)
    ensures
        spec_role_ids(r@) == listed_roles(ids@, role_ids(plugins.roles@)),
        forall|i: int| 0 <= i < r.len() ==> exists|j: int|
            0 <= j < plugins.roles.len() && plugins.roles@[j].id@ == (#[trigger] r@[i]).id@
                && plugins.roles@[j].label@ == r@[i].label@,
{
    let mut specs: Vec<RoleSpec> = Vec::new();
    let mut i: usize = 0;
    while i < ids.len()
        invariant
            i <= ids.len(),
            spec_role_ids(specs@) == listed_roles(ids@.take(i as int), role_ids(plugins.roles@)),
            forall|a: int| 0 <= a < specs.len() ==> exists|j: int|
                0 <= j < plugins.roles.len() && plugins.roles@[j].id@ == (#[trigger] specs@[a]).id@
                    && plugins.roles@[j].label@ == specs@[a].label@,
        decreases ids.len() - i,
    {
        assert(ids@.take(i + 1).drop_last() =~= ids@.take(i as int));
        let ghost k = normalize(ids@[i as int]@);
        match plugins.role(ids[i].as_str()) {
            None => {},
            Some(role) => {
                let ghost j0 = choose|j: int| 0 <= j < plugins.roles.len() && plugins.roles@[j] == *role;
                assert(role_ids(plugins.roles@)[j0] == k);
                let mut seen = false;
                let mut a: usize = 0;
                while a < specs.len()
                    invariant
                        a <= specs.len(),
                        seen == exists|b: int| 0 <= b < a && (#[trigger] specs@[b]).id@ == role.id@,
                    decreases specs.len() - a,
                {
                    if crate::text::same_text(specs[a].id.as_str(), role.id.as_str()) {
                        seen = true;
                    }
                    a = a + 1;
                }
                assert(seen == spec_role_ids(specs@).contains(role.id@)) by {
                    if seen {
                        let b = choose|b: int| 0 <= b < a && (#[trigger] specs@[b]).id@ == role.id@;
                        assert(spec_role_ids(specs@)[b] == role.id@);
                    }
                    if spec_role_ids(specs@).contains(role.id@) {
                        let b = choose|b: int| 0 <= b < specs@.len() && spec_role_ids(specs@)[b] == role.id@;
                        assert(specs@[b].id@ == role.id@);
                    }
                }
                if !seen {
                    let ghost before = specs@;
                    specs.push(RoleSpec { id: role.id.clone(), label: role.label.clone() });
                    assert(spec_role_ids(specs@) =~= spec_role_ids(before).push(k));
                    assert forall|b: int| 0 <= b < specs.len() implies exists|j: int|
                        0 <= j < plugins.roles.len() && plugins.roles@[j].id@ == (#[trigger] specs@[b]).id@
                            && plugins.roles@[j].label@ == specs@[b].label@ by {
                        if b < before.len() {
                            assert(specs@[b] == before[b]);
                        } else {
                            assert(plugins.roles@[j0].id@ == specs@[b].id@);
                        }
                    }
                }
            },
        }
        i = i + 1;
    }
    assert(ids@.take(i as int) =~= ids@);
    specs
}

/// The ids of a list of role entries.
pub fn role_spec_ids(v: &Vec<RoleSpec>) -> (r: Vec<String>)
    ensures
        texts(r@) == spec_role_ids(v@),
{
    let mut r: Vec<String> = Vec::new();
    let mut i: usize = 0;
    while i < v.len()
        invariant
            i <= v.len(),
            texts(r@) == spec_role_ids(v@.take(i as int)),
        decreases v.len() - i,
    {
        let ghost before = r@;
        r.push(v[i].id.clone());
        assert(texts(r@) =~= texts(before).push(v@[i as int].id@));
        assert(spec_role_ids(v@.take(i + 1)) =~= spec_role_ids(v@.take(i as int)).push(v@[i as int].id@));
        i = i + 1;
    }
    assert(v@.take(i as int) =~= v@);
    r
}

/// A copy of an override map, entry by entry.
fn copy_overrides(e: &Vec<(String, OverridePermission)>) -> (r: Vec<(String, OverridePermission)>)
    requires
        distinct_keys(e@),
        forall|c: Seq<char>| #[trigger] lookup(e@, c) matches Some(p) ==> p.wf(),
    ensures
        distinct_keys(r@),
        forall|c: Seq<char>| #[trigger] lookup(r@, c) matches Some(p) ==> p.wf(),
        forall|c: Seq<char>| #[trigger] override_model(r@, c) == override_model(e@, c),
{
    let mut r: Vec<(String, OverridePermission)> = Vec::new();
    let mut i: usize = 0;
    while i < e.len()
        invariant
            i <= e.len(),
            distinct_keys(e@),
            forall|c: Seq<char>| #[trigger] lookup(e@, c) matches Some(p) ==> p.wf(),
            distinct_keys(r@),
            forall|c: Seq<char>| #[trigger] lookup(r@, c) matches Some(p) ==> p.wf(),
            forall|c: Seq<char>| #[trigger] override_model(r@, c) == override_model(e@.take(i as int), c),
        decreases e.len() - i,
    {
        assert(e@.take(i + 1).drop_last() =~= e@.take(i as int));
        proof {
            lemma_lookup(e@, e@[i as int].0@);
        }
        let ghost before = r@;
        let v = e[i].1.duplicate();
        put_key(&mut r, e[i].0.clone(), v);
        assert forall|c: Seq<char>| #[trigger] override_model(r@, c) == override_model(e@.take(i + 1), c) by {
            assert(override_model(before, c) == override_model(e@.take(i as int), c));
        }
        i = i + 1;
    }
    assert(e@.take(i as int) =~= e@);
    r
}

impl AgentSpawnConfigView {
    /// An editor over the callers and targets that the registry's UI lists,
    /// with the registry's spawn defaults and the stored overrides
    /// `allow_overrides`. Unknown callers and targets in the stored overrides
    /// are dropped and reported in `warnings`.
    pub fn new(
        config_path: String,
        active_agent: String,
        allow_overrides: &Vec<(String, Vec<String>)>,
        plugins: &PluginRegistry,
    ) -> (r: AgentSpawnConfigView)
        ensures
            r.wf(),
            r.focus == FocusPanel::Callers,
            !r.complete,
            !r.dirty(),
            r.config_path == config_path,
            r.active_agent == active_agent,
            spec_role_ids(r.callers@) == listed_roles(plugins.ui.agent_config_callers@, role_ids(plugins.roles@)),
            spec_role_ids(r.targets@) == listed_roles(plugins.ui.agent_config_targets@, role_ids(plugins.roles@)),
            texts(r.all_targets@) == spec_role_ids(r.targets@),
            r.caller_selected == (if r.callers.len() == 0 { None } else { Some(0usize) }),
            r.target_selected == (if r.callers.len() == 0 || r.targets.len() == 0 { None } else { Some(0usize) }),
            forall|c: Seq<char>| ids_of(role_id_strings(r.callers@)).contains(c)
                ==> #[trigger] r.default_of(c) == default_access(
                plugins.spawn_defaults_allow@,
                c,
                r.universe(),
            ),
            forall|c: Seq<char>| #[trigger] r.override_of(c) == stored_override(
                allow_overrides@,
                ids_of(role_id_strings(r.callers@)),
                r.universe(),
                c,
            ),
            texts(r.warnings@) == override_warnings(
                allow_overrides@,
                ids_of(role_id_strings(r.callers@)),
                r.universe(),
            ),
    {
        let callers = build_role_specs(&plugins.ui.agent_config_callers, plugins);
        let targets = build_role_specs(&plugins.ui.agent_config_targets, plugins);
        let caller_ids = role_spec_ids(&callers);
        let all_targets = role_spec_ids(&targets);
        let ghost caller_set = ids_of(role_id_strings(callers@));
        assert(ids_of(caller_ids@) =~= caller_set) by {
            assert(texts(caller_ids@).len() == callers@.len());
            assert forall|c: Seq<char>| ids_of(caller_ids@).contains(c) implies caller_set.contains(c) by {
                let k = choose|k: int| 0 <= k < caller_ids@.len() && caller_ids@[k]@ == c;
                assert(texts(caller_ids@)[k] == c);
                assert(spec_role_ids(callers@)[k] == callers@[k].id@);
                assert(role_id_strings(callers@)[k] == callers@[k].id);
            }
            assert forall|c: Seq<char>| caller_set.contains(c) implies ids_of(caller_ids@).contains(c) by {
                let k = choose|k: int| 0 <= k < callers@.len() && (#[trigger] role_id_strings(callers@)[k])@ == c;
                assert(role_id_strings(callers@)[k] == callers@[k].id);
                assert(spec_role_ids(callers@)[k] == callers@[k].id@);
                assert(texts(caller_ids@)[k] == c);
            }
        }
        assert(distinct_ids(all_targets@)) by {
            lemma_listed_roles_distinct(plugins.ui.agent_config_targets@, role_ids(plugins.roles@));
            assert forall|a: int, b: int| 0 <= a < b < all_targets@.len() implies all_targets@[a]@ != all_targets@[b]@ by {
                assert(texts(all_targets@)[a] == all_targets@[a]@);
                assert(texts(all_targets@)[b] == all_targets@[b]@);
            }
        }
        let default_permissions = build_default_permissions(&plugins.spawn_defaults_allow, &caller_ids, &all_targets);
        let (initial_overrides, warnings) = parse_overrides(allow_overrides, &caller_ids, &all_targets);
        let overrides = copy_overrides(&initial_overrides);
        let mut view = AgentSpawnConfigView {
            focus: FocusPanel::Callers,
            complete: false,
            config_path,
            active_agent,
            warnings,
            callers,
            targets,
            all_targets,
            default_permissions,
            caller_selected: None,
            target_selected: None,
            overrides,
            initial_overrides,
        };
        view.initialize_selection();
        proof {
            assert forall|c: Seq<char>| #[trigger] lookup(view.default_permissions@, c) is Some implies within(lookup(view.default_permissions@, c).unwrap().model(), view.universe()) by {
                lemma_default_access_within(plugins.spawn_defaults_allow@, c, view.universe());
            }
            assert forall|c: Seq<char>| #[trigger] lookup(view.initial_overrides@, c) is Some implies within(lookup(view.initial_overrides@, c).unwrap().model(), view.universe()) by {
                lemma_stored_override_within(allow_overrides@, caller_set, view.universe(), c);
            }
            assert forall|c: Seq<char>| #[trigger] lookup(view.overrides@, c) is Some implies within(lookup(view.overrides@, c).unwrap().model(), view.universe()) by {
                lemma_stored_override_within(allow_overrides@, caller_set, view.universe(), c);
                assert(override_model(view.overrides@, c) == override_model(view.initial_overrides@, c));
            }
            assert forall|c: Seq<char>| caller_set.contains(c) implies #[trigger] view.default_of(c) == default_access(
                plugins.spawn_defaults_allow@,
                c,
                view.universe(),
            ) by {
                assert(lookup(view.default_permissions@, c) is Some);
            }
            assert forall|c: Seq<char>| #[trigger] view.override_of(c) == stored_override(
                allow_overrides@,
                caller_set,
                view.universe(),
                c,
            ) by {
                assert(override_model(view.overrides@, c) == override_model(view.initial_overrides@, c));
            }
            if view.dirty() {
                let c = choose|c: Seq<char>| #[trigger] override_model(view.overrides@, c) != override_model(view.initial_overrides@, c);
            }
        }
        view
    }
}

/// With no override, a caller's effective permission is its default.
pub proof fn lemma_effective_without_override(v: AgentSpawnConfigView, c: Seq<char>)
    requires
        v.override_of(c) is None,
    ensures
        v.effective_of(c) == v.default_of(c),
{
}

/// Storing for a caller an allowed set equal to its default leaves no
/// override for it: its permission is the default again, and reported as
/// such.
pub proof fn lemma_setting_default_drops_override(
    v0: AgentSpawnConfigView,
    v1: AgentSpawnConfigView,
    c: Seq<char>,
    s: Set<Seq<char>>,
)
    requires
        v0.keeps_all_but_overrides(v1),
        v0.sets_allowed(v1, c, s),
        s == allowed_set(v0.default_of(c), v0.universe()),
    ensures
        v1.override_of(c) is None,
        v1.effective_of(c) == v0.default_of(c),
{
}

/// After a caller's allowed set is stored as `s`, the caller is allowed
/// exactly `s`, whether an override was kept or not.
pub proof fn lemma_allowed_after_set(
    v0: AgentSpawnConfigView,
    v1: AgentSpawnConfigView,
    c: Seq<char>,
    s: Set<Seq<char>>,
)
    requires
        v0.keeps_all_but_overrides(v1),
        v0.sets_allowed(v1, c, s),
    ensures
        allowed_set(v1.effective_of(c), v1.universe()) == s,
        forall|q: Seq<char>| q != c ==> #[trigger] v1.effective_of(q) == v0.effective_of(q),
{
    assert forall|q: Seq<char>| q != c implies #[trigger] v1.effective_of(q) == v0.effective_of(q) by {
        assert(lookup(v1.overrides@, q) == lookup(v0.overrides@, q));
    }
}

/// Toggling the same target twice for the same caller gives every caller
/// back the allowed set it had.
pub proof fn lemma_toggle_twice_restores(
    v0: AgentSpawnConfigView,
    v1: AgentSpawnConfigView,
    v2: AgentSpawnConfigView,
)
    requires
        v0.toggled(v1),
        v1.toggled(v2),
    ensures
        forall|q: Seq<char>| #[trigger]
            allowed_set(v2.effective_of(q), v2.universe()) == allowed_set(
                v0.effective_of(q),
                v0.universe(),
            ),
{
    match (v0.selected_caller(), v0.selected_target()) {
        (Some(c), Some(t)) => {
            let a0 = allowed_set(v0.effective_of(c), v0.universe());
            let s1 = flip(a0, t);
            lemma_allowed_after_set(v0, v1, c, s1);
            let s2 = flip(allowed_set(v1.effective_of(c), v1.universe()), t);
            lemma_allowed_after_set(v1, v2, c, s2);
            assert(s2 =~= a0);
        },
        _ => {
            assert forall|q: Seq<char>| #[trigger] v2.effective_of(q) == v0.effective_of(q) by {}
        },
    }
}

/// "Use default" on a caller leaves it no override; the editor is then clean
/// exactly when that caller started without an override and every other
/// caller's override is as it started.
pub proof fn lemma_reset_and_dirty(v0: AgentSpawnConfigView, v1: AgentSpawnConfigView, c: Seq<char>)
    requires
        v0.reset(v1),
        v0.selected_caller() == Some(c),
    ensures
        v1.override_of(c) is None,
        !v1.dirty() <==> (override_model(v0.initial_overrides@, c) is None && forall|q: Seq<char>|
            q != c ==> #[trigger] v0.override_of(q) == override_model(v0.initial_overrides@, q)),
{
    assert forall|q: Seq<char>| q != c implies #[trigger] v1.override_of(q) == v0.override_of(q) by {
        assert(lookup(v1.overrides@, q) == lookup(v0.overrides@, q));
    }
    if !v1.dirty() {
        assert(override_model(v1.overrides@, c) == override_model(v1.initial_overrides@, c));
        assert forall|q: Seq<char>| q != c implies #[trigger] v0.override_of(q) == override_model(
            v0.initial_overrides@,
            q,
        ) by {
            assert(override_model(v1.overrides@, q) == override_model(v1.initial_overrides@, q));
        }
    }
    if override_model(v0.initial_overrides@, c) is None && forall|q: Seq<char>|
        q != c ==> #[trigger] v0.override_of(q) == override_model(v0.initial_overrides@, q) {
        assert forall|q: Seq<char>| #[trigger]
            override_model(v1.overrides@, q) == override_model(v1.initial_overrides@, q) by {
            if q != c {
                assert(v1.override_of(q) == v0.override_of(q));
            }
        }
    }
}

} // verus!
