//! The plugin registry: roles, categories, collaboration-mode prompts, spawn
//! defaults and UI lists, merged from the manifests of the enabled plugins.
use vstd::prelude::*;

use crate::ids::{normalize, normalize_id};
use crate::keyed::{distinct_keys, find_key, lookup, put_key, copy_ids};
use crate::ids::is_space;
use crate::modes::{rendered_template, render_collaboration_mode_template};
use crate::modes::{ModeKind, ReasoningEffort};
use crate::text::{chars_of, push_text, string_of, texts};

verus! {

/// What a role is for.
#[derive(Clone, Copy, Debug, PartialEq, Eq, Hash, Structural)]
pub enum RoleKind {
    /// The main agent.
    Primary,
    /// May be launched as a sub-agent.
    Spawnable,
    /// Exists for configuration only.
    Hidden,
}

/// A role as merged into the registry.
#[derive(Clone, Debug, PartialEq, Eq)]
pub struct RoleDefinition {
    pub id: String,
    pub plugin_id: String,
    pub kind: RoleKind,
    pub label: String,
    pub description: Option<String>,
    pub prompt_path: String,
    pub read_only: bool,
    pub allows_collab_tools: bool,
    pub model: Option<String>,
    pub reasoning_effort: Option<ReasoningEffort>,
}

/// A category as merged into the registry.
#[derive(Clone, Debug, PartialEq, Eq)]
pub struct CategoryDefinition {
    pub id: String,
    pub plugin_id: String,
    pub label: String,
    pub prompt_append_path: String,
}

/// Role ids for the UI, in display order.
#[derive(Clone, Debug, PartialEq, Eq)]
pub struct UiSpec {
    pub tab_picker_roles: Vec<String>,
    pub agent_config_callers: Vec<String>,
    pub agent_config_targets: Vec<String>,
}

/// Why a prompt path was refused.
#[derive(Clone, Debug, PartialEq, Eq)]
pub enum PathError {
    /// The path is absolute.
    MustBeRelative(String),
    /// The path has a `..` component.
    ParentDir(String),
}

/// `rel` under `dir`, as `Path::join` forms it for a relative `rel`.
pub open spec fn join_path(dir: Seq<char>, rel: Seq<char>) -> Seq<char> {
    if dir.len() == 0 {
        rel
    } else if dir.last() == '/' {
        dir + rel
    } else {
        dir + seq!['/'] + rel
    }
}

pub fn join_path_text(dir: &str, rel: &str) -> (r: String)
    ensures
        r@ == join_path(dir@, rel@),
{
    let d = chars_of(dir);
    let mut out: Vec<char> = Vec::new();
    push_text(&mut out, dir);
    if d.len() > 0 && d[d.len() - 1] != '/' {
        out.push('/');
    }
    push_text(&mut out, rel);
    string_of(&out)
}

/// A path is absolute when it starts at the root.
pub open spec fn is_absolute_path(p: Seq<char>) -> bool {
    p.len() > 0 && p[0] == '/'
}

/// Whether `p` has a `..` component.
pub open spec fn has_parent_component(p: Seq<char>) -> bool {
    exists|i: int|
        0 <= i && i + 2 <= p.len() && #[trigger] p[i] == '.' && p[i + 1] == '.' && (i == 0 || p[i
            - 1] == '/') && (i + 2 == p.len() || p[i + 2] == '/')
}

/// A prompt path, relative to its plugin directory, that stays inside it.
pub open spec fn safe_relative_path(p: Seq<char>) -> bool {
    !is_absolute_path(p) && !has_parent_component(p)
}

/// Resolves a prompt path of a manifest against its plugin directory,
/// refusing absolute paths and paths with a `..` component.
pub fn resolve_plugin_path(plugin_dir: &str, raw: &str) -> (r: Result<String, PathError>)
    ensures
        match r {
            Ok(path) => safe_relative_path(raw@) && path@ == join_path(plugin_dir@, raw@),
            Err(PathError::MustBeRelative(s)) => is_absolute_path(raw@) && s@ == raw@,
            Err(PathError::ParentDir(s)) => !is_absolute_path(raw@) && has_parent_component(raw@)
                && s@ == raw@,
        },
{
    let v = chars_of(raw);
    if v.len() > 0 && v[0] == '/' {
        return Err(PathError::MustBeRelative(raw.to_string()));
    }
    let mut i: usize = 0;
    while i < v.len()
        invariant
            v@ == raw@,
            i <= v.len(),
            !is_absolute_path(raw@),
            forall|k: int|
                0 <= k < i && k + 2 <= v@.len() ==> !(#[trigger] v@[k] == '.' && v@[k + 1] == '.'
                    && (k == 0 || v@[k - 1] == '/') && (k + 2 == v@.len() || v@[k + 2] == '/')),
        decreases v.len() - i,
    {
        if i + 1 < v.len() && v[i] == '.' && v[i + 1] == '.' && (i == 0 || v[i - 1] == '/') && (i + 2 == v.len()
            || v[i + 2] == '/') {
            assert(v@[i as int] == '.');
            return Err(PathError::ParentDir(raw.to_string()));
        }
        i = i + 1;
    }
    Ok(join_path_text(plugin_dir, raw))
}

/// Whether `r` is what `dunce::simplified` may make of `p`: `p` itself, or
/// `p` without a leading `\\?\`.
pub open spec fn simplification_of(p: Seq<char>, r: Seq<char>) -> bool {
    r == p || (p.len() >= 4 && p.take(4) == seq!['\\', '\\', '?', '\\'] && r == p.skip(4))
}

/// Relies on `dunce::simplified`: it returns the path unchanged, or on
/// Windows without its verbatim `\\?\` prefix.
#[verifier::external_body]
fn simplify_path(p: &str) -> (r: String)
    ensures
        simplification_of(p@, r@),
{
    dunce::simplified(std::path::Path::new(p)).to_string_lossy().into_owned()
}

/// The plugin search roots, in order: `<home>/plugins`, then `<project
/// root>/plugins` where the working directory is inside a project, else
/// `<cwd>/plugins`. Each is simplified, and the second is dropped when it is
/// the first.
pub fn plugin_search_dirs(home: &str, project_root: Option<&str>, cwd: &str) -> (r: Vec<String>)
    ensures
        1 <= r.len() <= 2,
        simplification_of(join_path(home@, "plugins"@), r[0]@),
        r.len() == 2 ==> r[0]@ != r[1]@,
        ({
            let base = match project_root {
                Some(root) => root@,
                None => cwd@,
            };
            r.len() == 2 ==> simplification_of(join_path(base, "plugins"@), r[1]@)
        }),
        ({
            let base = match project_root {
                Some(root) => root@,
                None => cwd@,
            };
            r.len() == 1 ==> simplification_of(join_path(base, "plugins"@), r[0]@)
        }),
{
    let first = simplify_path(join_path_text(home, "plugins").as_str());
    let base = match project_root {
        Some(root) => root,
        None => cwd,
    };
    let second = simplify_path(join_path_text(base, "plugins").as_str());
    let mut dirs: Vec<String> = Vec::new();
    let same = first == second;
    dirs.push(first);
    if !same {
        dirs.push(second);
    }
    dirs
}

/// The `[plugin]` table of a manifest.
#[derive(Clone, Debug, PartialEq, Eq)]
pub struct PluginInfo {
    pub id: String,
    pub default_agent_role: Option<String>,
}

/// A `[collaboration_modes.<mode>]` table, with the text of the prompt file
/// it names where that file could be read.
#[derive(Clone, Debug, PartialEq, Eq)]
pub struct ModeOverrideManifest {
    pub mode: ModeKind,
    pub prompt_file: String,
    pub prompt_text: Option<String>,
}

/// A `[roles.<id>]` table.
#[derive(Clone, Debug, PartialEq, Eq)]
pub struct RoleManifest {
    pub kind: RoleKind,
    pub label: Option<String>,
    pub description: Option<String>,
    pub prompt_file: String,
    /// Whether the prompt file could be read.
    pub prompt_readable: bool,
    pub read_only: Option<bool>,
    pub allows_collab_tools: Option<bool>,
    pub model: Option<String>,
    pub reasoning_effort: Option<ReasoningEffort>,
}

/// A `[categories.<id>]` table.
#[derive(Clone, Debug, PartialEq, Eq)]
pub struct CategoryManifest {
    pub label: Option<String>,
    pub prompt_append_file: String,
    /// Whether the prompt fragment file could be read.
    pub prompt_append_readable: bool,
}

/// The `[ui]` table.
#[derive(Clone, Debug, PartialEq, Eq)]
pub struct UiManifest {
    pub tab_picker_roles: Vec<String>,
    pub agent_config_callers: Vec<String>,
    pub agent_config_targets: Vec<String>,
}

/// One `plugin.toml`, as read.
#[derive(Clone, Debug, PartialEq, Eq)]
pub struct PluginManifest {
    pub plugin: PluginInfo,
    pub collaboration_modes: Vec<ModeOverrideManifest>,
    pub roles: Vec<(String, RoleManifest)>,
    pub categories: Vec<(String, CategoryManifest)>,
    pub ui: UiManifest,
    /// `[spawn_defaults.allow]`: caller id and raw target tokens.
    pub spawn_defaults_allow: Vec<(String, Vec<String>)>,
}

/// A manifest found under a search root, with the directory that holds it.
#[derive(Clone, Debug, PartialEq, Eq)]
pub struct FoundManifest {
    pub plugin_dir: String,
    pub manifest: PluginManifest,
}

/// Why the registry could not be loaded.
#[derive(Clone, Debug, PartialEq, Eq)]
pub enum LoadError {
    DuplicatePlugin { plugin_id: String, searched: Vec<String> },
    MissingPlugins { missing: Vec<String>, searched: Vec<String> },
    DuplicateModeOverride(ModeKind),
    InvalidModePromptPath { mode: ModeKind, error: PathError },
    UnreadableModePrompt { mode: ModeKind, path: String },
    EmptyModePrompt { path: String },
    RenderedEmptyModePrompt { path: String },
    DuplicateRole(String),
    InvalidRolePromptPath { role: String, error: PathError },
    UnreadableRolePrompt { role: String, path: String },
    DuplicateCategory(String),
    InvalidCategoryPromptPath { category: String, error: PathError },
    UnreadableCategoryPrompt { category: String, path: String },
}

/// Text made of whitespace alone (or nothing).
pub open spec fn blank(s: Seq<char>) -> bool {
    forall|i: int| 0 <= i < s.len() ==> is_space(#[trigger] s[i])
}

pub fn is_blank(s: &str) -> (r: bool)
    ensures
        r == blank(s@),
{
    let v = chars_of(s);
    let mut i: usize = 0;
    while i < v.len()
        invariant
            v@ == s@,
            i <= v.len(),
            forall|k: int| 0 <= k < i ==> is_space(#[trigger] v@[k]),
        decreases v.len() - i,
    {
        if !crate::ids::is_space_char(v[i]) {
            return false;
        }
        i = i + 1;
    }
    true
}

/// The normalized non-empty ids of a list, in order.
pub open spec fn norm_ids(v: Seq<String>) -> Seq<Seq<char>>
    decreases v.len(),
{
    if v.len() == 0 {
        Seq::empty()
    } else if normalize(v.last()@).len() == 0 {
        norm_ids(v.drop_last())
    } else {
        norm_ids(v.drop_last()).push(normalize(v.last()@))
    }
}

/// Appends the normalized non-empty ids of `v` to `out`.
pub fn extend_norm_ids(out: &mut Vec<String>, v: &Vec<String>)
    ensures
        texts(final(out)@) == texts(old(out)@) + norm_ids(v@),
{
    let ghost start = texts(out@);
    let mut i: usize = 0;
    while i < v.len()
        invariant
            i <= v.len(),
            texts(out@) == start + norm_ids(v@.take(i as int)),
        decreases v.len() - i,
    {
        let id = normalize_id(v[i].as_str());
        let ghost before = out@;
        assert(v@.take(i + 1).drop_last() =~= v@.take(i as int));
        if !id.as_str().is_empty() {
            out.push(id);
            assert(texts(out@) =~= texts(before).push(id@));
        }
        i = i + 1;
    }
    assert(v@.take(i as int) =~= v@);
}

/// The enabled plugin ids: normalized, empty ones dropped, each kept once.
pub open spec fn enabled_ids(e: Seq<String>) -> Seq<Seq<char>>
    decreases e.len(),
{
    if e.len() == 0 {
        Seq::empty()
    } else {
        let prev = enabled_ids(e.drop_last());
        let k = normalize(e.last()@);
        if k.len() == 0 || prev.contains(k) {
            prev
        } else {
            prev.push(k)
        }
    }
}

/// The normalized id a found manifest declares.
pub open spec fn plugin_key(f: FoundManifest) -> Seq<char> {
    normalize(f.manifest.plugin.id@)
}

/// Two found manifests declare the same enabled plugin.
pub open spec fn duplicate_plugin(found: Seq<FoundManifest>, en: Seq<Seq<char>>) -> bool {
    exists|i: int, j: int|
        0 <= i < j < found.len() && plugin_key(#[trigger] found[i]) == plugin_key(#[trigger] found[j])
            && en.contains(plugin_key(found[i]))
}

/// Some enabled plugin has no manifest.
pub open spec fn missing_plugin(found: Seq<FoundManifest>, en: Seq<Seq<char>>) -> bool {
    exists|k: int| 0 <= k < en.len() && !found_keys(found).contains(#[trigger] en[k])
}

/// The plugin ids that the found manifests declare, in order.
pub open spec fn found_keys(found: Seq<FoundManifest>) -> Seq<Seq<char>> {
    found.map_values(|f: FoundManifest| plugin_key(f))
}

/// The manifest found for plugin `k`.
pub open spec fn manifest_for(found: Seq<FoundManifest>, k: Seq<char>) -> FoundManifest {
    found[choose|i: int| 0 <= i < found.len() && plugin_key(found[i]) == k]
}

/// The manifests of the enabled plugins, in enabled order.
pub open spec fn selected(found: Seq<FoundManifest>, en: Seq<Seq<char>>) -> Seq<FoundManifest> {
    en.map_values(|k: Seq<char>| manifest_for(found, k))
}

/// The normalized non-empty keys of a list of entries, in order.
pub open spec fn entry_keys<V>(e: Seq<(String, V)>) -> Seq<Seq<char>>
    decreases e.len(),
{
    if e.len() == 0 {
        Seq::empty()
    } else if normalize(e.last().0@).len() == 0 {
        entry_keys(e.drop_last())
    } else {
        entry_keys(e.drop_last()).push(normalize(e.last().0@))
    }
}

/// The role ids that the manifests declare, in load order.
pub open spec fn role_keys(ms: Seq<FoundManifest>) -> Seq<Seq<char>>
    decreases ms.len(),
{
    if ms.len() == 0 {
        Seq::empty()
    } else {
        role_keys(ms.drop_last()) + entry_keys(ms.last().manifest.roles@)
    }
}

/// The category ids that the manifests declare, in load order.
pub open spec fn category_keys(ms: Seq<FoundManifest>) -> Seq<Seq<char>>
    decreases ms.len(),
{
    if ms.len() == 0 {
        Seq::empty()
    } else {
        category_keys(ms.drop_last()) + entry_keys(ms.last().manifest.categories@)
    }
}

/// The modes that a list of overrides names, in order.
pub open spec fn override_modes(o: Seq<ModeOverrideManifest>) -> Seq<ModeKind> {
    o.map_values(|x: ModeOverrideManifest| x.mode)
}

/// The modes that the manifests override, in load order.
pub open spec fn mode_keys(ms: Seq<FoundManifest>) -> Seq<ModeKind>
    decreases ms.len(),
{
    if ms.len() == 0 {
        Seq::empty()
    } else {
        mode_keys(ms.drop_last()) + override_modes(ms.last().manifest.collaboration_modes@)
    }
}

pub open spec fn no_repeats<T>(s: Seq<T>) -> bool {
    forall|i: int, j: int| 0 <= i < j < s.len() ==> s[i] != s[j]
}

/// A mode override is usable: a safe path, a readable prompt, and text left
/// both before and after its placeholders are expanded.
pub open spec fn mode_override_fine(o: ModeOverrideManifest) -> bool {
    &&& safe_relative_path(o.prompt_file@)
    &&& o.prompt_text matches Some(t) && !blank(t@) && !blank(rendered_template(t@, o.mode))
}

/// A role's prompt: a safe path to a file that could be read.
pub open spec fn role_prompt_fine(m: RoleManifest) -> bool {
    safe_relative_path(m.prompt_file@) && m.prompt_readable
}

/// A category's prompt fragment: a safe path to a file that could be read.
pub open spec fn category_prompt_fine(m: CategoryManifest) -> bool {
    safe_relative_path(m.prompt_append_file@) && m.prompt_append_readable
}

/// Every override, role and category of every manifest that is kept has a
/// usable prompt.
pub open spec fn prompts_fine(ms: Seq<FoundManifest>) -> bool {
    forall|p: int| 0 <= p < ms.len() ==> #[trigger] plugin_prompts_fine(ms[p].manifest)
}

pub open spec fn plugin_prompts_fine(m: PluginManifest) -> bool {
    &&& forall|j: int| 0 <= j < m.collaboration_modes.len() ==> mode_override_fine(
        #[trigger] m.collaboration_modes@[j],
    )
    &&& forall|j: int|
        0 <= j < m.roles.len() && normalize((#[trigger] m.roles@[j]).0@).len() > 0
            ==> role_prompt_fine(m.roles@[j].1)
    &&& forall|j: int|
        0 <= j < m.categories.len() && normalize((#[trigger] m.categories@[j]).0@).len() > 0
            ==> category_prompt_fine(m.categories@[j].1)
}

/// Loading succeeds: each enabled plugin has exactly one manifest, no mode
/// is overridden twice, no role or category id is declared twice, and every
/// prompt is usable.
pub open spec fn load_succeeds(found: Seq<FoundManifest>, en: Seq<Seq<char>>) -> bool {
    &&& !duplicate_plugin(found, en)
    &&& !missing_plugin(found, en)
    &&& no_repeats(mode_keys(selected(found, en)))
    &&& no_repeats(role_keys(selected(found, en)))
    &&& no_repeats(category_keys(selected(found, en)))
    &&& prompts_fine(selected(found, en))
}

pub open spec fn opt_view(o: Option<String>) -> Option<Seq<char>> {
    match o {
        Some(s) => Some(s@),
        None => None,
    }
}

fn copy_opt(o: &Option<String>) -> (r: Option<String>)
    ensures
        opt_view(r) == opt_view(*o),
{
    match o {
        Some(s) => Some(s.clone()),
        None => None,
    }
}

/// What a role definition holds, as plain values.
pub struct RoleModel {
    pub id: Seq<char>,
    pub plugin_id: Seq<char>,
    pub kind: RoleKind,
    pub label: Seq<char>,
    pub description: Option<Seq<char>>,
    pub prompt_path: Seq<char>,
    pub read_only: bool,
    pub allows_collab_tools: bool,
    pub model: Option<Seq<char>>,
    pub reasoning_effort: Option<ReasoningEffort>,
}

pub open spec fn role_model(r: RoleDefinition) -> RoleModel {
    RoleModel {
        id: r.id@,
        plugin_id: r.plugin_id@,
        kind: r.kind,
        label: r.label@,
        description: opt_view(r.description),
        prompt_path: r.prompt_path@,
        read_only: r.read_only,
        allows_collab_tools: r.allows_collab_tools,
        model: opt_view(r.model),
        reasoning_effort: r.reasoning_effort,
    }
}

pub open spec fn role_models(v: Seq<RoleDefinition>) -> Seq<RoleModel> {
    v.map_values(|r: RoleDefinition| role_model(r))
}

/// The role that a manifest entry becomes: its id normalized, the label
/// defaulting to the id, not read-only and allowed collaboration tools
/// unless the entry says otherwise, and its prompt under the plugin
/// directory.
pub open spec fn built_role(plugin: Seq<char>, dir: Seq<char>, raw: String, m: RoleManifest) -> RoleModel {
    RoleModel {
        id: normalize(raw@),
        plugin_id: plugin,
        kind: m.kind,
        label: match m.label {
            Some(l) => l@,
            None => normalize(raw@),
        },
        description: opt_view(m.description),
        prompt_path: join_path(dir, m.prompt_file@),
        read_only: match m.read_only {
            Some(b) => b,
            None => false,
        },
        allows_collab_tools: match m.allows_collab_tools {
            Some(b) => b,
            None => true,
        },
        model: opt_view(m.model),
        reasoning_effort: m.reasoning_effort,
    }
}

/// The roles that a manifest's entries become, in order; entries whose id
/// normalizes to nothing are skipped.
pub open spec fn built_roles(plugin: Seq<char>, dir: Seq<char>, e: Seq<(String, RoleManifest)>) -> Seq<RoleModel>
    decreases e.len(),
{
    if e.len() == 0 {
        Seq::empty()
    } else if normalize(e.last().0@).len() == 0 {
        built_roles(plugin, dir, e.drop_last())
    } else {
        built_roles(plugin, dir, e.drop_last()).push(built_role(plugin, dir, e.last().0, e.last().1))
    }
}

/// What a category definition holds, as plain values.
pub struct CategoryModel {
    pub id: Seq<char>,
    pub plugin_id: Seq<char>,
    pub label: Seq<char>,
    pub prompt_append_path: Seq<char>,
}

pub open spec fn category_models(v: Seq<CategoryDefinition>) -> Seq<CategoryModel> {
    v.map_values(
        |c: CategoryDefinition|
            CategoryModel {
                id: c.id@,
                plugin_id: c.plugin_id@,
                label: c.label@,
                prompt_append_path: c.prompt_append_path@,
            },
    )
}

/// The category a manifest entry becomes; the label defaults to the raw id.
pub open spec fn built_category(plugin: Seq<char>, dir: Seq<char>, raw: String, m: CategoryManifest) -> CategoryModel {
    CategoryModel {
        id: normalize(raw@),
        plugin_id: plugin,
        label: match m.label {
            Some(l) => l@,
            None => raw@,
        },
        prompt_append_path: join_path(dir, m.prompt_append_file@),
    }
}

pub open spec fn built_categories(plugin: Seq<char>, dir: Seq<char>, e: Seq<(String, CategoryManifest)>) -> Seq<CategoryModel>
    decreases e.len(),
{
    if e.len() == 0 {
        Seq::empty()
    } else if normalize(e.last().0@).len() == 0 {
        built_categories(plugin, dir, e.drop_last())
    } else {
        built_categories(plugin, dir, e.drop_last()).push(
            built_category(plugin, dir, e.last().0, e.last().1),
        )
    }
}

/// The rendered mode prompts that a manifest contributes, in order.
pub open spec fn built_modes(o: Seq<ModeOverrideManifest>) -> Seq<(ModeKind, Seq<char>)> {
    o.map_values(
        |x: ModeOverrideManifest|
            (
                x.mode,
                match x.prompt_text {
                    Some(t) => rendered_template(t@, x.mode),
                    None => Seq::empty(),
                },
            ),
    )
}

pub open spec fn mode_models(v: Seq<(ModeKind, String)>) -> Seq<(ModeKind, Seq<char>)> {
    v.map_values(|x: (ModeKind, String)| (x.0, x.1@))
}

pub open spec fn role_ids(v: Seq<RoleDefinition>) -> Seq<Seq<char>> {
    v.map_values(|r: RoleDefinition| r.id@)
}

pub open spec fn category_ids(v: Seq<CategoryDefinition>) -> Seq<Seq<char>> {
    v.map_values(|c: CategoryDefinition| c.id@)
}

pub open spec fn mode_ids(v: Seq<(ModeKind, String)>) -> Seq<ModeKind> {
    v.map_values(|x: (ModeKind, String)| x.0)
}

/// Whether `v` holds `m` among its modes.
fn has_mode(v: &Vec<(ModeKind, String)>, m: ModeKind) -> (r: bool)
    ensures
        r == mode_ids(v@).contains(m),
{
    let mut i: usize = 0;
    while i < v.len()
        invariant
            i <= v.len(),
            forall|k: int| 0 <= k < i ==> v@[k].0 != m,
        decreases v.len() - i,
    {
        if v[i].0 == m {
            assert(mode_ids(v@)[i as int] == m);
            return true;
        }
        i = i + 1;
    }
    false
}

/// Whether a role id is among `v`.
fn has_role(v: &Vec<RoleDefinition>, id: &str) -> (r: bool)
    ensures
        r == role_ids(v@).contains(id@),
{
    let mut i: usize = 0;
    while i < v.len()
        invariant
            i <= v.len(),
            forall|k: int| 0 <= k < i ==> v@[k].id@ != id@,
        decreases v.len() - i,
    {
        if crate::text::same_text(v[i].id.as_str(), id) {
            assert(role_ids(v@)[i as int] == id@);
            return true;
        }
        i = i + 1;
    }
    false
}

/// Whether a category id is among `v`.
fn has_category(v: &Vec<CategoryDefinition>, id: &str) -> (r: bool)
    ensures
        r == category_ids(v@).contains(id@),
{
    let mut i: usize = 0;
    while i < v.len()
        invariant
            i <= v.len(),
            forall|k: int| 0 <= k < i ==> v@[k].id@ != id@,
        decreases v.len() - i,
    {
        if crate::text::same_text(v[i].id.as_str(), id) {
            assert(category_ids(v@)[i as int] == id@);
            return true;
        }
        i = i + 1;
    }
    false
}

proof fn lemma_no_repeats_prefix<T>(s: Seq<T>, n: int)
    requires
        no_repeats(s),
        0 <= n <= s.len(),
    ensures
        no_repeats(s.take(n)),
{
}

proof fn lemma_entry_keys_prefix<V>(e: Seq<(String, V)>, a: int)
    requires
        0 <= a <= e.len(),
    ensures
        entry_keys(e.take(a)).len() <= entry_keys(e).len(),
        entry_keys(e).take(entry_keys(e.take(a)).len() as int) == entry_keys(e.take(a)),
    decreases e.len(),
{
    if a == e.len() {
        assert(e.take(a) =~= e);
        assert(entry_keys(e).take(entry_keys(e).len() as int) =~= entry_keys(e));
    } else {
        let d = e.drop_last();
        assert(d.take(a) =~= e.take(a));
        lemma_entry_keys_prefix(d, a);
        let n = entry_keys(e.take(a)).len() as int;
        assert(entry_keys(e).take(n) =~= entry_keys(d).take(n));
    }
}

/// A repeat within `x + p` is also one within `x + q` when `p` starts `q`.
proof fn lemma_repeat_extends<T>(x: Seq<T>, p: Seq<T>, q: Seq<T>)
    requires
        p.len() <= q.len(),
        q.take(p.len() as int) == p,
        !no_repeats(x + p),
    ensures
        !no_repeats(x + q),
{
    if no_repeats(x + q) {
        assert((x + q).take((x + p).len() as int) =~= x + p);
        lemma_no_repeats_prefix(x + q, (x + p).len() as int);
    }
}

/// Merges a manifest's mode prompts into `overrides`.
fn merge_modes(
    overrides: &mut Vec<(ModeKind, String)>,
    dir: &String,
    entries: &Vec<ModeOverrideManifest>,
) -> (r: Result<(), LoadError>)
    requires
        no_repeats(mode_ids(old(overrides)@)),
    ensures
        r is Ok ==> mode_models(final(overrides)@) == mode_models(old(overrides)@) + built_modes(entries@)
            && mode_ids(final(overrides)@) == mode_ids(old(overrides)@) + override_modes(entries@) && no_repeats(mode_ids(final(overrides)@)) && forall|j: int|
            0 <= j < entries.len() ==> mode_override_fine(#[trigger] entries@[j]),
        r is Err ==> !no_repeats(
            mode_ids(old(overrides)@) + override_modes(entries@),
        ) || exists|j: int| 0 <= j < entries.len() && !mode_override_fine(#[trigger] entries@[j]),
        r matches Err(e) ==> e is DuplicateModeOverride || e is InvalidModePromptPath
            || e is UnreadableModePrompt || e is EmptyModePrompt || e is RenderedEmptyModePrompt,
{
    let ghost start = overrides@;
    let ghost all_modes = override_modes(entries@);
    let mut j: usize = 0;
    while j < entries.len()
        invariant
            j <= entries.len(),
            all_modes == override_modes(entries@),
            start == old(overrides)@,
            mode_models(overrides@) == mode_models(start) + built_modes(entries@.take(j as int)),
            mode_ids(overrides@) == mode_ids(start) + all_modes.take(j as int),
            no_repeats(mode_ids(overrides@)),
            forall|k: int| 0 <= k < j ==> mode_override_fine(#[trigger] entries@[k]),
        decreases entries.len() - j,
    {
        let o = &entries[j];
        assert(all_modes.take(j + 1) =~= all_modes.take(j as int).push(o.mode));
        if has_mode(overrides, o.mode) {
            proof {
                let idx = choose|k: int| 0 <= k < mode_ids(overrides@).len() && mode_ids(overrides@)[k] == o.mode;
                let x = mode_ids(start) + all_modes.take(j + 1);
                assert(x =~= mode_ids(overrides@).push(o.mode));
                assert(x[idx] == x[x.len() - 1]);
                assert(!no_repeats(x));
                assert(all_modes.take(all_modes.take(j + 1).len() as int) =~= all_modes.take(j + 1));
                lemma_repeat_extends(mode_ids(start), all_modes.take(j + 1), all_modes);
            }
            return Err(LoadError::DuplicateModeOverride(o.mode));
        }
        let path = match resolve_plugin_path(dir.as_str(), o.prompt_file.as_str()) {
            Ok(p) => p,
            Err(e) => {
                return Err(LoadError::InvalidModePromptPath { mode: o.mode, error: e });
            },
        };
        let raw = match &o.prompt_text {
            Some(t) => t,
            None => {
                return Err(LoadError::UnreadableModePrompt { mode: o.mode, path });
            },
        };
        if is_blank(raw.as_str()) {
            return Err(LoadError::EmptyModePrompt { path });
        }
        let rendered = render_collaboration_mode_template(raw.as_str(), o.mode);
        if is_blank(rendered.as_str()) {
            return Err(LoadError::RenderedEmptyModePrompt { path });
        }
        let ghost before = overrides@;
        overrides.push((o.mode, rendered));
        assert(entries@.take(j + 1) =~= entries@.take(j as int).push(entries@[j as int]));
        assert(built_modes(entries@.take(j + 1)) =~= built_modes(entries@.take(j as int)).push(
            (o.mode, rendered_template(raw@, o.mode)),
        ));
        assert(mode_models(overrides@) =~= mode_models(before).push((o.mode, rendered@)));
        assert(mode_ids(overrides@) =~= mode_ids(before).push(o.mode));
        j = j + 1;
    }
    assert(entries@.take(j as int) =~= entries@);
    assert(all_modes.take(j as int) =~= all_modes);
    Ok(())
}

/// Merges a manifest's roles into `roles`.
fn merge_roles(
    roles: &mut Vec<RoleDefinition>,
    plugin_id: &String,
    dir: &String,
    entries: &Vec<(String, RoleManifest)>,
) -> (r: Result<(), LoadError>)
    requires
        no_repeats(role_ids(old(roles)@)),
    ensures
        r is Ok ==> role_models(final(roles)@) == role_models(old(roles)@) + built_roles(
            plugin_id@,
            dir@,
            entries@,
        ) && role_ids(final(roles)@) == role_ids(old(roles)@) + entry_keys(entries@) && no_repeats(
            role_ids(final(roles)@),
        ) && forall|j: int|
            0 <= j < entries.len() && normalize((#[trigger] entries@[j]).0@).len() > 0
                ==> role_prompt_fine(entries@[j].1),
        r is Err ==> !no_repeats(role_ids(old(roles)@) + entry_keys(entries@)) || exists|j: int|
            0 <= j < entries.len() && normalize((#[trigger] entries@[j]).0@).len() > 0
                && !role_prompt_fine(entries@[j].1),
        r matches Err(e) ==> e is DuplicateRole || e is InvalidRolePromptPath || e is UnreadableRolePrompt,
{
    let ghost start = roles@;
    let mut j: usize = 0;
    while j < entries.len()
        invariant
            j <= entries.len(),
            start == old(roles)@,
            role_models(roles@) == role_models(start) + built_roles(plugin_id@, dir@, entries@.take(j as int)),
            role_ids(roles@) == role_ids(start) + entry_keys(entries@.take(j as int)),
            no_repeats(role_ids(roles@)),
            forall|k: int|
                0 <= k < j && normalize((#[trigger] entries@[k]).0@).len() > 0
                    ==> role_prompt_fine(entries@[k].1),
        decreases entries.len() - j,
    {
        let raw = &entries[j].0;
        let rm = &entries[j].1;
        assert(entries@.take(j + 1).drop_last() =~= entries@.take(j as int));
        let id = normalize_id(raw.as_str());
        if id.as_str().is_empty() {
            j = j + 1;
            continue;
        }
        if has_role(roles, id.as_str()) {
            proof {
                let idx = choose|k: int| 0 <= k < role_ids(roles@).len() && role_ids(roles@)[k] == id@;
                let x = role_ids(start) + entry_keys(entries@.take(j + 1));
                assert(x =~= role_ids(roles@).push(id@));
                assert(x[idx] == x[x.len() - 1]);
                assert(!no_repeats(x));
                lemma_entry_keys_prefix(entries@, j + 1);
                lemma_repeat_extends(role_ids(start), entry_keys(entries@.take(j + 1)), entry_keys(entries@));
            }
            return Err(LoadError::DuplicateRole(id));
        }
        let prompt_path = match resolve_plugin_path(dir.as_str(), rm.prompt_file.as_str()) {
            Ok(p) => p,
            Err(e) => {
                return Err(LoadError::InvalidRolePromptPath { role: raw.clone(), error: e });
            },
        };
        if !rm.prompt_readable {
            return Err(LoadError::UnreadableRolePrompt { role: raw.clone(), path: prompt_path });
        }
        let label = match &rm.label {
            Some(l) => l.clone(),
            None => id.clone(),
        };
        let read_only = match rm.read_only {
            Some(b) => b,
            None => false,
        };
        let allows_collab_tools = match rm.allows_collab_tools {
            Some(b) => b,
            None => true,
        };
        let ghost before = roles@;
        let def = RoleDefinition {
            id,
            plugin_id: plugin_id.clone(),
            kind: rm.kind,
            label,
            description: copy_opt(&rm.description),
            prompt_path,
            read_only,
            allows_collab_tools,
            model: copy_opt(&rm.model),
            reasoning_effort: rm.reasoning_effort,
        };
        assert(role_model(def) == built_role(plugin_id@, dir@, *raw, *rm));
        roles.push(def);
        assert(role_models(roles@) =~= role_models(before).push(role_model(def)));
        assert(role_ids(roles@) =~= role_ids(before).push(def.id@));
        assert(no_repeats(role_ids(roles@)));
        j = j + 1;
    }
    assert(entries@.take(j as int) =~= entries@);
    Ok(())
}

/// Merges a manifest's categories into `categories`.
fn merge_categories(
    categories: &mut Vec<CategoryDefinition>,
    plugin_id: &String,
    dir: &String,
    entries: &Vec<(String, CategoryManifest)>,
) -> (r: Result<(), LoadError>)
    requires
        no_repeats(category_ids(old(categories)@)),
    ensures
        r is Ok ==> category_models(final(categories)@) == category_models(old(categories)@)
            + built_categories(plugin_id@, dir@, entries@) && category_ids(final(categories)@)
            == category_ids(old(categories)@) + entry_keys(entries@) && no_repeats(
            category_ids(final(categories)@),
        ) && forall|j: int|
            0 <= j < entries.len() && normalize((#[trigger] entries@[j]).0@).len() > 0
                ==> category_prompt_fine(entries@[j].1),
        r is Err ==> !no_repeats(category_ids(old(categories)@) + entry_keys(entries@)) || exists|j: int|
            0 <= j < entries.len() && normalize((#[trigger] entries@[j]).0@).len() > 0
                && !category_prompt_fine(entries@[j].1),
        r matches Err(e) ==> e is DuplicateCategory || e is InvalidCategoryPromptPath
            || e is UnreadableCategoryPrompt,
{
    let ghost start = categories@;
    let mut j: usize = 0;
    while j < entries.len()
        invariant
            j <= entries.len(),
            start == old(categories)@,
            category_models(categories@) == category_models(start) + built_categories(
                plugin_id@,
                dir@,
                entries@.take(j as int),
            ),
            category_ids(categories@) == category_ids(start) + entry_keys(entries@.take(j as int)),
            no_repeats(category_ids(categories@)),
            forall|k: int|
                0 <= k < j && normalize((#[trigger] entries@[k]).0@).len() > 0
                    ==> category_prompt_fine(entries@[k].1),
        decreases entries.len() - j,
    {
        let raw = &entries[j].0;
        let cm = &entries[j].1;
        assert(entries@.take(j + 1).drop_last() =~= entries@.take(j as int));
        let id = normalize_id(raw.as_str());
        if id.as_str().is_empty() {
            j = j + 1;
            continue;
        }
        if has_category(categories, id.as_str()) {
            proof {
                let idx = choose|k: int| 0 <= k < category_ids(categories@).len() && category_ids(categories@)[k] == id@;
                let x = category_ids(start) + entry_keys(entries@.take(j + 1));
                assert(x =~= category_ids(categories@).push(id@));
                assert(x[idx] == x[x.len() - 1]);
                assert(!no_repeats(x));
                lemma_entry_keys_prefix(entries@, j + 1);
                lemma_repeat_extends(category_ids(start), entry_keys(entries@.take(j + 1)), entry_keys(entries@));
            }
            return Err(LoadError::DuplicateCategory(id));
        }
        let path = match resolve_plugin_path(dir.as_str(), cm.prompt_append_file.as_str()) {
            Ok(p) => p,
            Err(e) => {
                return Err(LoadError::InvalidCategoryPromptPath { category: raw.clone(), error: e });
            },
        };
        if !cm.prompt_append_readable {
            return Err(LoadError::UnreadableCategoryPrompt { category: raw.clone(), path });
        }
        let label = match &cm.label {
            Some(l) => l.clone(),
            None => raw.clone(),
        };
        let ghost before = categories@;
        let def = CategoryDefinition { id, plugin_id: plugin_id.clone(), label, prompt_append_path: path };
        categories.push(def);
        assert(category_models(categories@) =~= category_models(before).push(
            built_category(plugin_id@, dir@, *raw, *cm),
        ));
        assert(category_ids(categories@) =~= category_ids(before).push(def.id@));
        assert(no_repeats(category_ids(categories@)));
        j = j + 1;
    }
    assert(entries@.take(j as int) =~= entries@);
    Ok(())
}

/// The enabled plugin ids, normalized, each once, in the order given.
pub fn enabled_plugin_list(enabled: &Vec<String>) -> (r: Vec<String>)
    ensures
        texts(r@) == enabled_ids(enabled@),
{
    let mut r: Vec<String> = Vec::new();
    let mut i: usize = 0;
    while i < enabled.len()
        invariant
            i <= enabled.len(),
            texts(r@) == enabled_ids(enabled@.take(i as int)),
        decreases enabled.len() - i,
    {
        assert(enabled@.take(i + 1).drop_last() =~= enabled@.take(i as int));
        let id = normalize_id(enabled[i].as_str());
        let ghost before = r@;
        let known = crate::keyed::has_id(&r, id.as_str());
        assert(known == texts(r@).contains(id@)) by {
            if texts(r@).contains(id@) {
                let k = choose|k: int| 0 <= k < texts(r@).len() && texts(r@)[k] == id@;
                assert(r@[k]@ == id@);
            }
            if known {
                let k = choose|k: int| 0 <= k < r@.len() && r@[k]@ == id@;
                assert(texts(r@)[k] == id@);
            }
        }
        if !id.as_str().is_empty() && !known {
            r.push(id);
            assert(texts(r@) =~= texts(before).push(id@));
        }
        i = i + 1;
    }
    assert(enabled@.take(i as int) =~= enabled@);
    r
}

/// For each enabled plugin, the position of its one manifest among `found`.
fn select_manifests(
    found: &Vec<FoundManifest>,
    en: &Vec<String>,
    searched: &Vec<String>,
) -> (r: Result<Vec<usize>, LoadError>)
    ensures
        match r {
            Ok(sel) => !duplicate_plugin(found@, texts(en@)) && !missing_plugin(found@, texts(en@))
                && sel.len() == en.len() && forall|p: int|
                0 <= p < sel.len() ==> #[trigger] sel[p] < found.len() && found@[sel[p] as int]
                == manifest_for(found@, texts(en@)[p]),
            Err(LoadError::DuplicatePlugin { .. }) => duplicate_plugin(found@, texts(en@)),
            Err(LoadError::MissingPlugins { .. }) => !duplicate_plugin(found@, texts(en@))
                && missing_plugin(found@, texts(en@)),
            Err(_) => false,
        },
{
    let ghost ens = texts(en@);
    let mut seen: Vec<(String, usize)> = Vec::new();
    let mut j: usize = 0;
    while j < found.len()
        invariant
            j <= found.len(),
            ens == texts(en@),
            distinct_keys(seen@),
            forall|c: Seq<char>| #[trigger] lookup(seen@, c) matches Some(i) ==> i < j && plugin_key(found@[i as int]) == c
                && ens.contains(c),
            forall|i: int| 0 <= i < j && ens.contains(plugin_key(found@[i])) ==> lookup(seen@, #[trigger] plugin_key(found@[i])) is Some,
            !exists|a: int, b: int|
                0 <= a < b < j && plugin_key(#[trigger] found@[a]) == plugin_key(#[trigger] found@[b])
                    && ens.contains(plugin_key(found@[a])),
        decreases found.len() - j,
    {
        let key = normalize_id(found[j].manifest.plugin.id.as_str());
        let enabled = crate::keyed::has_id(en, key.as_str());
        assert(enabled == ens.contains(key@)) by {
            if ens.contains(key@) {
                let k = choose|k: int| 0 <= k < ens.len() && ens[k] == key@;
                assert(en@[k]@ == key@);
            }
            if enabled {
                let k = choose|k: int| 0 <= k < en@.len() && en@[k]@ == key@;
                assert(ens[k] == key@);
            }
        }
        if enabled {
            match find_key(&seen, key.as_str()) {
                Some(i) => {
                    proof {
                        let a = seen@[i as int].1 as int;
                        assert(plugin_key(found@[a]) == plugin_key(found@[j as int]));
                    }
                    return Err(LoadError::DuplicatePlugin { plugin_id: key, searched: copy_ids(searched) });
                },
                None => {
                    let ghost kv = key@;
                    put_key(&mut seen, key, j);
                    assert forall|i: int| 0 <= i < j + 1 && ens.contains(plugin_key(found@[i])) implies lookup(seen@, #[trigger] plugin_key(found@[i])) is Some by {
                        if i < j {
                            assert(lookup(seen@, plugin_key(found@[i])) is Some || plugin_key(found@[i]) == kv);
                        }
                    }
                },
            }
        }
        j = j + 1;
    }
    let mut sel: Vec<usize> = Vec::new();
    let mut missing: Vec<String> = Vec::new();
    let mut p: usize = 0;
    while p < en.len()
        invariant
            p <= en.len(),
            j == found.len(),
            ens == texts(en@),
            distinct_keys(seen@),
            forall|c: Seq<char>| #[trigger] lookup(seen@, c) matches Some(i) ==> i < found.len() && plugin_key(found@[i as int]) == c
                && ens.contains(c),
            forall|i: int| 0 <= i < found.len() && ens.contains(plugin_key(found@[i])) ==> lookup(seen@, #[trigger] plugin_key(found@[i])) is Some,
            !duplicate_plugin(found@, ens),
            missing.len() == 0 ==> sel.len() == p,
            missing.len() == 0 ==> forall|q: int|
                0 <= q < sel.len() ==> #[trigger] sel[q] < found.len() && found@[sel[q] as int]
                == manifest_for(found@, ens[q]) && plugin_key(found@[sel[q] as int]) == ens[q],
            missing.len() > 0 ==> missing_plugin(found@, ens),
        decreases en.len() - p,
    {
        match find_key(&seen, en[p].as_str()) {
            Some(i) => {
                let idx = seen[i].1;
                proof {
                    let c = ens[p as int];
                    assert(c == en@[p as int]@);
                    let w = choose|w: int| 0 <= w < found.len() && plugin_key(found@[w]) == c;
                    if w != idx {
                        assert(ens.contains(c));
                        if w < idx {
                            assert(plugin_key(found@[w]) == plugin_key(found@[idx as int]));
                        } else {
                            assert(plugin_key(found@[idx as int]) == plugin_key(found@[w]));
                        }
                    }
                }
                sel.push(idx);
            },
            None => {
                proof {
                    let c = ens[p as int];
                    assert(c == en@[p as int]@);
                    if found_keys(found@).contains(c) {
                        let i = choose|i: int| 0 <= i < found.len() && found_keys(found@)[i] == c;
                        assert(plugin_key(found@[i]) == c);
                        assert(ens.contains(c));
                    }
                }
                missing.push(en[p].clone());
            },
        }
        p = p + 1;
    }
    if missing.len() > 0 {
        return Err(LoadError::MissingPlugins { missing, searched: copy_ids(searched) });
    }
    assert(sel.len() == en.len());
    assert(ens.len() == en.len());
    assert(missing.len() == 0);
    assert(forall|q: int| 0 <= q < sel.len() ==> #[trigger] sel[q] < found.len() && plugin_key(found@[sel[q] as int]) == ens[q]);
    assert forall|k: int| 0 <= k < ens.len() implies found_keys(found@).contains(#[trigger] ens[k]) by {
        assert(sel[k] < found.len());
        assert(found_keys(found@)[sel[k] as int] == ens[k]);
    }
    assert(!missing_plugin(found@, ens));
    assert(!duplicate_plugin(found@, ens));
    Ok(sel)
}

/// The roles that the manifests declare, built, in load order.
pub open spec fn role_defs(ms: Seq<FoundManifest>) -> Seq<RoleModel>
    decreases ms.len(),
{
    if ms.len() == 0 {
        Seq::empty()
    } else {
        role_defs(ms.drop_last()) + built_roles(
            plugin_key(ms.last()),
            ms.last().plugin_dir@,
            ms.last().manifest.roles@,
        )
    }
}

/// The categories that the manifests declare, built, in load order.
pub open spec fn category_defs(ms: Seq<FoundManifest>) -> Seq<CategoryModel>
    decreases ms.len(),
{
    if ms.len() == 0 {
        Seq::empty()
    } else {
        category_defs(ms.drop_last()) + built_categories(
            plugin_key(ms.last()),
            ms.last().plugin_dir@,
            ms.last().manifest.categories@,
        )
    }
}

/// The rendered mode prompts of the manifests, in load order.
pub open spec fn mode_defs(ms: Seq<FoundManifest>) -> Seq<(ModeKind, Seq<char>)>
    decreases ms.len(),
{
    if ms.len() == 0 {
        Seq::empty()
    } else {
        mode_defs(ms.drop_last()) + built_modes(ms.last().manifest.collaboration_modes@)
    }
}

pub open spec fn ui_tab_roles(ms: Seq<FoundManifest>) -> Seq<Seq<char>>
    decreases ms.len(),
{
    if ms.len() == 0 {
        Seq::empty()
    } else {
        ui_tab_roles(ms.drop_last()) + norm_ids(ms.last().manifest.ui.tab_picker_roles@)
    }
}

pub open spec fn ui_callers(ms: Seq<FoundManifest>) -> Seq<Seq<char>>
    decreases ms.len(),
{
    if ms.len() == 0 {
        Seq::empty()
    } else {
        ui_callers(ms.drop_last()) + norm_ids(ms.last().manifest.ui.agent_config_callers@)
    }
}

pub open spec fn ui_targets(ms: Seq<FoundManifest>) -> Seq<Seq<char>>
    decreases ms.len(),
{
    if ms.len() == 0 {
        Seq::empty()
    } else {
        ui_targets(ms.drop_last()) + norm_ids(ms.last().manifest.ui.agent_config_targets@)
    }
}

/// The default agent role a manifest names, normalized, if not empty.
pub open spec fn declared_default_role(f: FoundManifest) -> Option<Seq<char>> {
    match f.manifest.plugin.default_agent_role {
        Some(r) => if normalize(r@).len() > 0 {
            Some(normalize(r@))
        } else {
            None
        },
        None => None,
    }
}

/// The default agent role: the first one that a manifest names.
pub open spec fn first_default_role(ms: Seq<FoundManifest>) -> Option<Seq<char>>
    decreases ms.len(),
{
    if ms.len() == 0 {
        None
    } else {
        match first_default_role(ms.drop_last()) {
            Some(r) => Some(r),
            None => declared_default_role(ms.last()),
        }
    }
}

/// The tokens that a list of `spawn_defaults.allow` entries gives caller
/// `c`: those of the last entry whose caller normalizes to `c`.
pub open spec fn allow_entry(e: Seq<(String, Vec<String>)>, c: Seq<char>) -> Option<Seq<Seq<char>>>
    decreases e.len(),
{
    if e.len() == 0 {
        None
    } else if normalize(e.last().0@) == c {
        Some(texts(e.last().1@))
    } else {
        allow_entry(e.drop_last(), c)
    }
}

/// The default spawn tokens of caller `c`: a later manifest's entry replaces
/// an earlier one's.
pub open spec fn spawn_default(ms: Seq<FoundManifest>, c: Seq<char>) -> Option<Seq<Seq<char>>>
    decreases ms.len(),
{
    if ms.len() == 0 {
        None
    } else {
        match allow_entry(ms.last().manifest.spawn_defaults_allow@, c) {
            Some(t) => Some(t),
            None => spawn_default(ms.drop_last(), c),
        }
    }
}

/// The tokens stored for caller `c`.
pub open spec fn spawn_view(e: Seq<(String, Vec<String>)>, c: Seq<char>) -> Option<Seq<Seq<char>>> {
    match lookup(e, c) {
        Some(v) => Some(texts(v@)),
        None => None,
    }
}

/// Merges a manifest's spawn defaults into `dst`.
fn merge_spawn_defaults(dst: &mut Vec<(String, Vec<String>)>, entries: &Vec<(String, Vec<String>)>)
    requires
        distinct_keys(old(dst)@),
    ensures
        distinct_keys(final(dst)@),
        forall|c: Seq<char>| #[trigger]
            spawn_view(final(dst)@, c) == match allow_entry(entries@, c) {
                Some(t) => Some(t),
                None => spawn_view(old(dst)@, c),
            },
{
    let ghost start = dst@;
    let mut j: usize = 0;
    while j < entries.len()
        invariant
            j <= entries.len(),
            distinct_keys(dst@),
            forall|c: Seq<char>| #[trigger]
                spawn_view(dst@, c) == match allow_entry(entries@.take(j as int), c) {
                    Some(t) => Some(t),
                    None => spawn_view(start, c),
                },
        decreases entries.len() - j,
    {
        assert(entries@.take(j + 1).drop_last() =~= entries@.take(j as int));
        let caller = normalize_id(entries[j].0.as_str());
        let tokens = copy_ids(&entries[j].1);
        let ghost before = dst@;
        put_key(dst, caller, tokens);
        assert forall|c: Seq<char>| #[trigger]
            spawn_view(dst@, c) == match allow_entry(entries@.take(j + 1), c) {
                Some(t) => Some(t),
                None => spawn_view(start, c),
            } by {
            assert(lookup(dst@, c) == if c == caller@ { Some(tokens) } else { lookup(before, c) });
            assert(entries@.take(j + 1).last() == entries@[j as int]);
            assert(spawn_view(before, c) == match allow_entry(entries@.take(j as int), c) {
                Some(t) => Some(t),
                None => spawn_view(start, c),
            });
        }
        j = j + 1;
    }
    assert(entries@.take(j as int) =~= entries@);
}

proof fn lemma_role_keys_prefix(ms: Seq<FoundManifest>, a: int)
    requires
        0 <= a <= ms.len(),
    ensures
        role_keys(ms.take(a)).len() <= role_keys(ms).len(),
        role_keys(ms).take(role_keys(ms.take(a)).len() as int) == role_keys(ms.take(a)),
    decreases ms.len(),
{
    if a == ms.len() {
        assert(ms.take(a) =~= ms);
        assert(role_keys(ms).take(role_keys(ms).len() as int) =~= role_keys(ms));
    } else {
        let d = ms.drop_last();
        assert(d.take(a) =~= ms.take(a));
        lemma_role_keys_prefix(d, a);
        let n = role_keys(ms.take(a)).len() as int;
        assert(role_keys(ms).take(n) =~= role_keys(d).take(n));
    }
}

proof fn lemma_category_keys_prefix(ms: Seq<FoundManifest>, a: int)
    requires
        0 <= a <= ms.len(),
    ensures
        category_keys(ms.take(a)).len() <= category_keys(ms).len(),
        category_keys(ms).take(category_keys(ms.take(a)).len() as int) == category_keys(ms.take(a)),
    decreases ms.len(),
{
    if a == ms.len() {
        assert(ms.take(a) =~= ms);
        assert(category_keys(ms).take(category_keys(ms).len() as int) =~= category_keys(ms));
    } else {
        let d = ms.drop_last();
        assert(d.take(a) =~= ms.take(a));
        lemma_category_keys_prefix(d, a);
        let n = category_keys(ms.take(a)).len() as int;
        assert(category_keys(ms).take(n) =~= category_keys(d).take(n));
    }
}

proof fn lemma_mode_keys_prefix(ms: Seq<FoundManifest>, a: int)
    requires
        0 <= a <= ms.len(),
    ensures
        mode_keys(ms.take(a)).len() <= mode_keys(ms).len(),
        mode_keys(ms).take(mode_keys(ms.take(a)).len() as int) == mode_keys(ms.take(a)),
    decreases ms.len(),
{
    if a == ms.len() {
        assert(ms.take(a) =~= ms);
        assert(mode_keys(ms).take(mode_keys(ms).len() as int) =~= mode_keys(ms));
    } else {
        let d = ms.drop_last();
        assert(d.take(a) =~= ms.take(a));
        lemma_mode_keys_prefix(d, a);
        let n = mode_keys(ms.take(a)).len() as int;
        assert(mode_keys(ms).take(n) =~= mode_keys(d).take(n));
    }
}

/// A repeat within a prefix is a repeat within the whole.
proof fn lemma_repeat_in_prefix<T>(p: Seq<T>, q: Seq<T>)
    requires
        p.len() <= q.len(),
        q.take(p.len() as int) == p,
        !no_repeats(p),
    ensures
        !no_repeats(q),
{
    assert(Seq::<T>::empty() + p =~= p);
    assert(Seq::<T>::empty() + q =~= q);
    lemma_repeat_extends(Seq::<T>::empty(), p, q);
}

/// The merged registry of the enabled plugins.
#[derive(Clone, Debug, PartialEq, Eq)]
pub struct PluginRegistry {
    pub enabled: Vec<String>,
    pub default_agent_role: Option<String>,
    pub roles: Vec<RoleDefinition>,
    pub categories: Vec<CategoryDefinition>,
    pub collaboration_mode_overrides: Vec<(ModeKind, String)>,
    pub spawn_defaults_allow: Vec<(String, Vec<String>)>,
    pub ui: UiSpec,
}

impl PluginRegistry {
    /// Ids are unique within the roles, within the categories and within the
    /// spawn defaults, and no mode has two prompts.
    pub open spec fn wf(&self) -> bool {
        &&& no_repeats(role_ids(self.roles@))
        &&& no_repeats(category_ids(self.categories@))
        &&& no_repeats(mode_ids(self.collaboration_mode_overrides@))
        &&& distinct_keys(self.spawn_defaults_allow@)
    }

    /// Nothing is enabled or declared.
    pub open spec fn empty_spec(&self) -> bool {
        &&& self.enabled.len() == 0
        &&& self.default_agent_role is None
        &&& self.roles.len() == 0
        &&& self.categories.len() == 0
        &&& self.collaboration_mode_overrides.len() == 0
        &&& self.spawn_defaults_allow.len() == 0
        &&& self.ui.tab_picker_roles.len() == 0
        &&& self.ui.agent_config_callers.len() == 0
        &&& self.ui.agent_config_targets.len() == 0
    }

    /// The registry holds what the manifests `ms` of the enabled plugins `en`
    /// declare, merged in order.
    pub open spec fn built_from(&self, ms: Seq<FoundManifest>, en: Seq<Seq<char>>) -> bool {
        &&& texts(self.enabled@) == en
        &&& opt_view(self.default_agent_role) == first_default_role(ms)
        &&& role_models(self.roles@) == role_defs(ms)
        &&& role_ids(self.roles@) == role_keys(ms)
        &&& category_models(self.categories@) == category_defs(ms)
        &&& category_ids(self.categories@) == category_keys(ms)
        &&& mode_models(self.collaboration_mode_overrides@) == mode_defs(ms)
        &&& forall|c: Seq<char>| #[trigger]
            spawn_view(self.spawn_defaults_allow@, c) == spawn_default(ms, c)
        &&& texts(self.ui.tab_picker_roles@) == ui_tab_roles(ms)
        &&& texts(self.ui.agent_config_callers@) == ui_callers(ms)
        &&& texts(self.ui.agent_config_targets@) == ui_targets(ms)
    }

    /// The registry with no plugin enabled.
    pub fn empty() -> (r: PluginRegistry)
        ensures
            r.empty_spec(),
            r.wf(),
    {
        PluginRegistry {
            enabled: Vec::new(),
            default_agent_role: None,
            roles: Vec::new(),
            categories: Vec::new(),
            collaboration_mode_overrides: Vec::new(),
            spawn_defaults_allow: Vec::new(),
            ui: UiSpec {
                tab_picker_roles: Vec::new(),
                agent_config_callers: Vec::new(),
                agent_config_targets: Vec::new(),
            },
        }
    }

    /// Merges the manifests of the enabled plugins, in the order they are
    /// enabled. `found` holds every manifest found under the search roots
    /// `searched`. With no plugin enabled the registry is empty; otherwise
    /// loading succeeds exactly when each enabled plugin has one manifest, no
    /// mode prompt, role or category is declared twice, and every prompt is
    /// usable.
    pub fn load(enabled: &Vec<String>, found: &Vec<FoundManifest>, searched: &Vec<String>) -> (r: Result<PluginRegistry, LoadError>)
        ensures
            enabled_ids(enabled@).len() == 0 ==> (r matches Ok(reg) && reg.empty_spec()),
            r is Ok <==> load_succeeds(found@, enabled_ids(enabled@)),
            r matches Ok(reg) ==> reg.wf() && reg.built_from(
                selected(found@, enabled_ids(enabled@)),
                enabled_ids(enabled@),
            ),
            r matches Err(LoadError::DuplicatePlugin { .. }) ==> duplicate_plugin(
                found@,
                enabled_ids(enabled@),
            ),
            r matches Err(LoadError::MissingPlugins { .. }) ==> missing_plugin(
                found@,
                enabled_ids(enabled@),
            ),
    {
        let en = enabled_plugin_list(enabled);
        let ghost ens = texts(en@);
        if en.len() == 0 {
            let reg = PluginRegistry::empty();
            proof {
                let ms = selected(found@, ens);
                assert(ms =~= Seq::<FoundManifest>::empty());
                assert(!duplicate_plugin(found@, ens));
                assert(role_keys(ms) =~= Seq::<Seq<char>>::empty());
                assert(category_keys(ms) =~= Seq::<Seq<char>>::empty());
                assert(mode_keys(ms) =~= Seq::<ModeKind>::empty());
                assert(texts(reg.enabled@) =~= ens);
                assert(role_models(reg.roles@) =~= role_defs(ms));
                assert(role_ids(reg.roles@) =~= role_keys(ms));
                assert(category_models(reg.categories@) =~= category_defs(ms));
                assert(category_ids(reg.categories@) =~= category_keys(ms));
                assert(mode_models(reg.collaboration_mode_overrides@) =~= mode_defs(ms));
                assert(texts(reg.ui.tab_picker_roles@) =~= ui_tab_roles(ms));
                assert(texts(reg.ui.agent_config_callers@) =~= ui_callers(ms));
                assert(texts(reg.ui.agent_config_targets@) =~= ui_targets(ms));
            }
            return Ok(reg);
        }
        let sel = match select_manifests(found, &en, searched) {
            Ok(sel) => sel,
            Err(e) => {
                return Err(e);
            },
        };
        let ghost ms = selected(found@, ens);
        let mut reg = PluginRegistry::empty();
        reg.enabled = copy_ids(&en);
        let mut p: usize = 0;
        while p < en.len()
            invariant
                p <= en.len(),
                ens == texts(en@),
                ens == enabled_ids(enabled@),
                ms == selected(found@, ens),
                ms.len() == en.len(),
                sel.len() == en.len(),
                forall|q: int| 0 <= q < sel.len() ==> #[trigger] sel[q] < found.len() && found@[sel[q] as int] == ms[q],
                forall|q: int| 0 <= q < ms.len() ==> plugin_key(#[trigger] ms[q]) == ens[q],
                !duplicate_plugin(found@, ens),
                !missing_plugin(found@, ens),
                reg.wf(),
                texts(reg.enabled@) == ens,
                opt_view(reg.default_agent_role) == first_default_role(ms.take(p as int)),
                role_models(reg.roles@) == role_defs(ms.take(p as int)),
                role_ids(reg.roles@) == role_keys(ms.take(p as int)),
                category_models(reg.categories@) == category_defs(ms.take(p as int)),
                category_ids(reg.categories@) == category_keys(ms.take(p as int)),
                mode_models(reg.collaboration_mode_overrides@) == mode_defs(ms.take(p as int)),
                mode_ids(reg.collaboration_mode_overrides@) == mode_keys(ms.take(p as int)),
                forall|c: Seq<char>| #[trigger]
                    spawn_view(reg.spawn_defaults_allow@, c) == spawn_default(ms.take(p as int), c),
                texts(reg.ui.tab_picker_roles@) == ui_tab_roles(ms.take(p as int)),
                texts(reg.ui.agent_config_callers@) == ui_callers(ms.take(p as int)),
                texts(reg.ui.agent_config_targets@) == ui_targets(ms.take(p as int)),
                forall|q: int| 0 <= q < p ==> #[trigger] plugin_prompts_fine(ms[q].manifest),
            decreases en.len() - p,
        {
            let f = &found[sel[p]];
            let m = &f.manifest;
            let plugin_id = &en[p];
            let ghost next = ms.take(p + 1);
            proof {
                assert(next.drop_last() =~= ms.take(p as int));
                assert(next.last() == ms[p as int]);
                assert(ms[p as int] == *f);
                assert(plugin_key(*f) == plugin_id@);
            }
            if reg.default_agent_role.is_none() {
                reg.default_agent_role = match &m.plugin.default_agent_role {
                    Some(raw) => {
                        let id = normalize_id(raw.as_str());
                        if id.as_str().is_empty() {
                            None
                        } else {
                            Some(id)
                        }
                    },
                    None => None,
                };
            }
            match merge_modes(&mut reg.collaboration_mode_overrides, &f.plugin_dir, &m.collaboration_modes) {
                Ok(()) => {},
                Err(e) => {
                    proof {
                        lemma_mode_keys_prefix(ms, p + 1);
                        if !no_repeats(mode_keys(next)) {
                            lemma_repeat_in_prefix(mode_keys(next), mode_keys(ms));
                        } else {
                            assert(!plugin_prompts_fine(ms[p as int].manifest));
                        }
                    }
                    return Err(e);
                },
            }
            match merge_roles(&mut reg.roles, plugin_id, &f.plugin_dir, &m.roles) {
                Ok(()) => {},
                Err(e) => {
                    proof {
                        lemma_role_keys_prefix(ms, p + 1);
                        if !no_repeats(role_keys(next)) {
                            lemma_repeat_in_prefix(role_keys(next), role_keys(ms));
                        } else {
                            assert(!plugin_prompts_fine(ms[p as int].manifest));
                        }
                    }
                    return Err(e);
                },
            }
            match merge_categories(&mut reg.categories, plugin_id, &f.plugin_dir, &m.categories) {
                Ok(()) => {},
                Err(e) => {
                    proof {
                        lemma_category_keys_prefix(ms, p + 1);
                        if !no_repeats(category_keys(next)) {
                            lemma_repeat_in_prefix(category_keys(next), category_keys(ms));
                        } else {
                            assert(!plugin_prompts_fine(ms[p as int].manifest));
                        }
                    }
                    return Err(e);
                },
            }
            merge_spawn_defaults(&mut reg.spawn_defaults_allow, &m.spawn_defaults_allow);
            extend_norm_ids(&mut reg.ui.tab_picker_roles, &m.ui.tab_picker_roles);
            extend_norm_ids(&mut reg.ui.agent_config_callers, &m.ui.agent_config_callers);
            extend_norm_ids(&mut reg.ui.agent_config_targets, &m.ui.agent_config_targets);
            proof {
                assert(plugin_prompts_fine(ms[p as int].manifest));
                assert forall|c: Seq<char>| #[trigger]
                    spawn_view(reg.spawn_defaults_allow@, c) == spawn_default(next, c) by {}
            }
            p = p + 1;
        }
        proof {
            assert(ms.take(p as int) =~= ms);
            assert(prompts_fine(ms));
        }
        Ok(reg)
    }
}

/// The roles of kind `Spawnable`, in order.
pub open spec fn spawnable_models(v: Seq<RoleDefinition>) -> Seq<RoleModel>
    decreases v.len(),
{
    if v.len() == 0 {
        Seq::empty()
    } else if v.last().kind == RoleKind::Spawnable {
        spawnable_models(v.drop_last()).push(role_model(v.last()))
    } else {
        spawnable_models(v.drop_last())
    }
}

fn copy_role(r: &RoleDefinition) -> (c: RoleDefinition)
    ensures
        role_model(c) == role_model(*r),
{
    RoleDefinition {
        id: r.id.clone(),
        plugin_id: r.plugin_id.clone(),
        kind: r.kind,
        label: r.label.clone(),
        description: copy_opt(&r.description),
        prompt_path: r.prompt_path.clone(),
        read_only: r.read_only,
        allows_collab_tools: r.allows_collab_tools,
        model: copy_opt(&r.model),
        reasoning_effort: r.reasoning_effort,
    }
}

impl PluginRegistry {
    pub fn enabled_plugin_ids(&self) -> (r: &Vec<String>)
        ensures
            r@ == self.enabled@,
    {
        &self.enabled
    }

    /// Whether nothing is enabled and nothing was merged.
    pub fn is_empty(&self) -> (r: bool)
        ensures
            r == (self.enabled.len() == 0 && self.roles.len() == 0 && self.categories.len() == 0
                && self.collaboration_mode_overrides.len() == 0 && self.spawn_defaults_allow.len() == 0
                && self.ui.tab_picker_roles.len() == 0 && self.ui.agent_config_callers.len() == 0
                && self.ui.agent_config_targets.len() == 0),
    {
        self.enabled.len() == 0 && self.roles.len() == 0 && self.categories.len() == 0
            && self.collaboration_mode_overrides.len() == 0 && self.spawn_defaults_allow.len() == 0
            && self.ui.tab_picker_roles.len() == 0 && self.ui.agent_config_callers.len() == 0
            && self.ui.agent_config_targets.len() == 0
    }

    pub fn default_agent_role(&self) -> (r: Option<&str>)
        ensures
            match r {
                Some(s) => self.default_agent_role matches Some(d) && d@ == s@,
                None => self.default_agent_role is None,
            },
    {
        match &self.default_agent_role {
            Some(d) => Some(d.as_str()),
            None => None,
        }
    }

    pub fn roles(&self) -> (r: &Vec<RoleDefinition>)
        ensures
            r@ == self.roles@,
    {
        &self.roles
    }

    /// The role with id `id`, compared after normalization.
    pub fn role(&self, id: &str) -> (r: Option<&RoleDefinition>)
        ensures
            match r {
                Some(d) => exists|i: int| 0 <= i < self.roles.len() && self.roles@[i] == *d,
                None => !role_ids(self.roles@).contains(normalize(id@)),
            },
            r matches Some(d) ==> d.id@ == normalize(id@),
    {
        let key = normalize_id(id);
        let mut i: usize = 0;
        while i < self.roles.len()
            invariant
                i <= self.roles.len(),
                key@ == normalize(id@),
                forall|k: int| 0 <= k < i ==> self.roles@[k].id@ != key@,
            decreases self.roles.len() - i,
        {
            if crate::text::same_text(self.roles[i].id.as_str(), key.as_str()) {
                return Some(&self.roles[i]);
            }
            i = i + 1;
        }
        None
    }

    /// The roles that may be launched as sub-agents, in order.
    pub fn spawnable_roles(&self) -> (r: Vec<RoleDefinition>)
        ensures
            role_models(r@) == spawnable_models(self.roles@),
    {
        let mut r: Vec<RoleDefinition> = Vec::new();
        let mut i: usize = 0;
        while i < self.roles.len()
            invariant
                i <= self.roles.len(),
                role_models(r@) == spawnable_models(self.roles@.take(i as int)),
            decreases self.roles.len() - i,
        {
            assert(self.roles@.take(i + 1).drop_last() =~= self.roles@.take(i as int));
            let ghost before = r@;
            if self.roles[i].kind == RoleKind::Spawnable {
                let c = copy_role(&self.roles[i]);
                r.push(c);
                assert(role_models(r@) =~= role_models(before).push(role_model(self.roles@[i as int])));
            }
            i = i + 1;
        }
        assert(self.roles@.take(i as int) =~= self.roles@);
        r
    }

    pub fn categories(&self) -> (r: &Vec<CategoryDefinition>)
        ensures
            r@ == self.categories@,
    {
        &self.categories
    }

    /// The category with id `id`, compared after normalization.
    pub fn category(&self, id: &str) -> (r: Option<&CategoryDefinition>)
        ensures
            match r {
                Some(d) => exists|i: int| 0 <= i < self.categories.len() && self.categories@[i] == *d,
                None => !category_ids(self.categories@).contains(normalize(id@)),
            },
            r matches Some(d) ==> d.id@ == normalize(id@),
    {
        let key = normalize_id(id);
        let mut i: usize = 0;
        while i < self.categories.len()
            invariant
                i <= self.categories.len(),
                key@ == normalize(id@),
                forall|k: int| 0 <= k < i ==> self.categories@[k].id@ != key@,
            decreases self.categories.len() - i,
        {
            if crate::text::same_text(self.categories[i].id.as_str(), key.as_str()) {
                return Some(&self.categories[i]);
            }
            i = i + 1;
        }
        None
    }

    /// The rendered prompt that a plugin gives `mode`, if any.
    pub fn collaboration_mode_override(&self, mode: ModeKind) -> (r: Option<&str>)
        ensures
            match r {
                Some(t) => exists|i: int|
                    0 <= i < self.collaboration_mode_overrides.len()
                        && self.collaboration_mode_overrides@[i].0 == mode
                        && self.collaboration_mode_overrides@[i].1@ == t@,
                None => !mode_ids(self.collaboration_mode_overrides@).contains(mode),
            },
    {
        let mut i: usize = 0;
        while i < self.collaboration_mode_overrides.len()
            invariant
                i <= self.collaboration_mode_overrides.len(),
                forall|k: int| 0 <= k < i ==> self.collaboration_mode_overrides@[k].0 != mode,
            decreases self.collaboration_mode_overrides.len() - i,
        {
            if self.collaboration_mode_overrides[i].0 == mode {
                return Some(self.collaboration_mode_overrides[i].1.as_str());
            }
            i = i + 1;
        }
        None
    }

    pub fn spawn_defaults_allow(&self) -> (r: &Vec<(String, Vec<String>)>)
        ensures
            r@ == self.spawn_defaults_allow@,
    {
        &self.spawn_defaults_allow
    }

    pub fn ui(&self) -> (r: &UiSpec)
        ensures
            *r == self.ui,
    {
        &self.ui
    }

    /// Where the prompt of role `role_id` is stored, if the role exists.
    pub fn role_prompt_path(&self, role_id: &str) -> (r: Option<&str>)
        ensures
            match r {
                Some(p) => exists|i: int|
                    0 <= i < self.roles.len() && self.roles@[i].id@ == normalize(role_id@)
                        && self.roles@[i].prompt_path@ == p@,
                None => !role_ids(self.roles@).contains(normalize(role_id@)),
            },
    {
        match self.role(role_id) {
            Some(d) => Some(d.prompt_path.as_str()),
            None => None,
        }
    }

    /// Where the prompt fragment of category `category_id` is stored, if the
    /// category exists.
    pub fn category_prompt_append_path(&self, category_id: &str) -> (r: Option<&str>)
        ensures
            match r {
                Some(p) => exists|i: int|
                    0 <= i < self.categories.len() && self.categories@[i].id@ == normalize(
                        category_id@,
                    ) && self.categories@[i].prompt_append_path@ == p@,
                None => !category_ids(self.categories@).contains(normalize(category_id@)),
            },
    {
        match self.category(category_id) {
            Some(d) => Some(d.prompt_append_path.as_str()),
            None => None,
        }
    }
}

proof fn lemma_entry_key_listed<V>(e: Seq<(String, V)>, j: int)
    requires
        0 <= j < e.len(),
        normalize(e[j].0@).len() > 0,
    ensures
        entry_keys(e).contains(normalize(e[j].0@)),
    decreases e.len(),
{
    let k = normalize(e[j].0@);
    if j == e.len() - 1 {
        assert(entry_keys(e).last() == k);
    } else {
        let d = e.drop_last();
        assert(d[j] == e[j]);
        lemma_entry_key_listed(d, j);
        let idx = choose|i: int| 0 <= i < entry_keys(d).len() && entry_keys(d)[i] == k;
        if normalize(e.last().0@).len() > 0 {
            assert(entry_keys(e)[idx] == k);
        }
    }
}

proof fn lemma_role_key_listed(ms: Seq<FoundManifest>, p: int, j: int)
    requires
        0 <= p < ms.len(),
        0 <= j < ms[p].manifest.roles.len(),
        normalize(ms[p].manifest.roles@[j].0@).len() > 0,
    ensures
        role_keys(ms).contains(normalize(ms[p].manifest.roles@[j].0@)),
    decreases ms.len(),
{
    let k = normalize(ms[p].manifest.roles@[j].0@);
    let d = ms.drop_last();
    if p == ms.len() - 1 {
        lemma_entry_key_listed(ms[p].manifest.roles@, j);
        let idx = choose|i: int| 0 <= i < entry_keys(ms.last().manifest.roles@).len() && entry_keys(ms.last().manifest.roles@)[i] == k;
        assert(role_keys(ms)[role_keys(d).len() + idx] == k);
    } else {
        assert(d[p] == ms[p]);
        lemma_role_key_listed(d, p, j);
        let idx = choose|i: int| 0 <= i < role_keys(d).len() && role_keys(d)[i] == k;
        assert(role_keys(ms)[idx] == k);
    }
}

/// Two enabled plugins that declare the same role id (once normalized) make
/// loading fail.
pub proof fn lemma_same_role_in_two_plugins_fails(
    found: Seq<FoundManifest>,
    en: Seq<Seq<char>>,
    first: int,
    first_entry: int,
    second: int,
    second_entry: int,
)
    requires
        0 <= first < second < en.len(),
        0 <= first_entry < selected(found, en)[first].manifest.roles.len(),
        0 <= second_entry < selected(found, en)[second].manifest.roles.len(),
        normalize(selected(found, en)[first].manifest.roles@[first_entry].0@) == normalize(
            selected(found, en)[second].manifest.roles@[second_entry].0@,
        ),
        normalize(selected(found, en)[first].manifest.roles@[first_entry].0@).len() > 0,
    ensures
        !load_succeeds(found, en),
{
    let ms = selected(found, en);
    let k = normalize(ms[first].manifest.roles@[first_entry].0@);
    let head = ms.take(second);
    let next = ms.take(second + 1);
    assert(head[first] == ms[first]);
    lemma_role_key_listed(head, first, first_entry);
    lemma_entry_key_listed(ms[second].manifest.roles@, second_entry);
    assert(next.drop_last() =~= head);
    assert(next.last() == ms[second]);
    let a = choose|i: int| 0 <= i < role_keys(head).len() && role_keys(head)[i] == k;
    let b = choose|i: int| 0 <= i < entry_keys(ms[second].manifest.roles@).len() && entry_keys(ms[second].manifest.roles@)[i] == k;
    assert(role_keys(next)[a] == k);
    assert(role_keys(next)[role_keys(head).len() + b] == k);
    assert(!no_repeats(role_keys(next)));
    lemma_role_keys_prefix(ms, second + 1);
    lemma_repeat_in_prefix(role_keys(next), role_keys(ms));
}

proof fn lemma_built_role_listed(plugin: Seq<char>, dir: Seq<char>, e: Seq<(String, RoleManifest)>, j: int)
    requires
        0 <= j < e.len(),
        normalize(e[j].0@).len() > 0,
    ensures
        built_roles(plugin, dir, e).contains(built_role(plugin, dir, e[j].0, e[j].1)),
    decreases e.len(),
{
    let x = built_role(plugin, dir, e[j].0, e[j].1);
    if j == e.len() - 1 {
        assert(built_roles(plugin, dir, e).last() == x);
    } else {
        let d = e.drop_last();
        assert(d[j] == e[j]);
        lemma_built_role_listed(plugin, dir, d, j);
        let idx = choose|i: int| 0 <= i < built_roles(plugin, dir, d).len() && built_roles(plugin, dir, d)[i] == x;
        if normalize(e.last().0@).len() > 0 {
            assert(built_roles(plugin, dir, e)[idx] == x);
        }
    }
}

proof fn lemma_role_def_listed(ms: Seq<FoundManifest>, p: int, j: int)
    requires
        0 <= p < ms.len(),
        0 <= j < ms[p].manifest.roles.len(),
        normalize(ms[p].manifest.roles@[j].0@).len() > 0,
    ensures
        role_defs(ms).contains(
            built_role(
                plugin_key(ms[p]),
                ms[p].plugin_dir@,
                ms[p].manifest.roles@[j].0,
                ms[p].manifest.roles@[j].1,
            ),
        ),
    decreases ms.len(),
{
    let x = built_role(
        plugin_key(ms[p]),
        ms[p].plugin_dir@,
        ms[p].manifest.roles@[j].0,
        ms[p].manifest.roles@[j].1,
    );
    let d = ms.drop_last();
    if p == ms.len() - 1 {
        lemma_built_role_listed(plugin_key(ms[p]), ms[p].plugin_dir@, ms[p].manifest.roles@, j);
        let last = built_roles(plugin_key(ms.last()), ms.last().plugin_dir@, ms.last().manifest.roles@);
        let idx = choose|i: int| 0 <= i < last.len() && last[i] == x;
        assert(role_defs(ms)[role_defs(d).len() + idx] == x);
    } else {
        assert(d[p] == ms[p]);
        lemma_role_def_listed(d, p, j);
        let idx = choose|i: int| 0 <= i < role_defs(d).len() && role_defs(d)[i] == x;
        assert(role_defs(ms)[idx] == x);
    }
}

/// Once loaded, the registry holds a role for every role id that an enabled
/// plugin declares, whichever plugin declared it, and owned by that plugin.
pub proof fn lemma_declared_roles_present(
    reg: PluginRegistry,
    found: Seq<FoundManifest>,
    en: Seq<Seq<char>>,
    p: int,
    j: int,
)
    requires
        reg.built_from(selected(found, en), en),
        load_succeeds(found, en),
        0 <= p < en.len(),
        0 <= j < selected(found, en)[p].manifest.roles.len(),
        normalize(selected(found, en)[p].manifest.roles@[j].0@).len() > 0,
    ensures
        role_ids(reg.roles@).contains(normalize(selected(found, en)[p].manifest.roles@[j].0@)),
        exists|i: int|
            0 <= i < reg.roles.len() && reg.roles@[i].id@ == normalize(
                selected(found, en)[p].manifest.roles@[j].0@,
            ) && reg.roles@[i].plugin_id@ == en[p],
{
    let ms = selected(found, en);
    lemma_role_key_listed(ms, p, j);
    lemma_role_def_listed(ms, p, j);
    assert(found_keys(found).contains(en[p]));
    let w = choose|w: int| 0 <= w < found_keys(found).len() && found_keys(found)[w] == en[p];
    assert(plugin_key(found[w]) == en[p]);
    assert(plugin_key(ms[p]) == en[p]);
    let x = built_role(plugin_key(ms[p]), ms[p].plugin_dir@, ms[p].manifest.roles@[j].0, ms[p].manifest.roles@[j].1);
    let idx = choose|i: int| 0 <= i < role_defs(ms).len() && role_defs(ms)[i] == x;
    assert(role_models(reg.roles@)[idx] == x);
    assert(reg.roles@[idx].id@ == x.id);
}

} // verus!
