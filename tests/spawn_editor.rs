use codex_collab::editor::{AgentSpawnConfigView, EditorKey, FocusPanel, PermissionOrigin};
use codex_collab::permissions::{EffectivePermission, OverridePermission};
use codex_collab::registry::{
    FoundManifest, PluginInfo, PluginManifest, PluginRegistry, RoleKind, RoleManifest, UiManifest,
};

fn ids(v: &[&str]) -> Vec<String> {
    v.iter().map(|s| s.to_string()).collect()
}

fn role(kind: RoleKind) -> RoleManifest {
    RoleManifest {
        kind,
        label: None,
        description: None,
        prompt_file: "p.md".to_string(),
        prompt_readable: true,
        read_only: None,
        allows_collab_tools: None,
        model: None,
        reasoning_effort: None,
    }
}

fn registry() -> PluginRegistry {
    let m = PluginManifest {
        plugin: PluginInfo { id: "team".to_string(), default_agent_role: Some("primary".to_string()) },
        collaboration_modes: vec![],
        roles: vec![
            ("primary".to_string(), role(RoleKind::Primary)),
            ("worker".to_string(), role(RoleKind::Spawnable)),
            ("helper".to_string(), role(RoleKind::Spawnable)),
        ],
        categories: vec![],
        ui: UiManifest {
            tab_picker_roles: vec![],
            agent_config_callers: ids(&["primary", "worker", "ghost", "Worker"]),
            agent_config_targets: ids(&["worker", "helper"]),
        },
        spawn_defaults_allow: vec![
            ("primary".to_string(), ids(&["*"])),
            ("worker".to_string(), ids(&["Helper", "unknown"])),
        ],
    };
    PluginRegistry::load(
        &ids(&["team"]),
        &vec![FoundManifest { plugin_dir: "/p/team".to_string(), manifest: m }],
        &vec![],
    )
    .expect("load")
}

fn editor(stored: Vec<(String, Vec<String>)>) -> AgentSpawnConfigView {
    AgentSpawnConfigView::new("/cfg.toml".to_string(), "primary".to_string(), &stored, &registry())
}

fn allowed(view: &AgentSpawnConfigView, caller: &str) -> Vec<String> {
    let (p, _) = view.effective_permission(caller);
    view.all_targets.iter().filter(|t| p.allows(t)).cloned().collect()
}

#[test]
fn wildcard_default_gives_all_without_override() {
    let view = editor(vec![]);
    assert_eq!(view.callers.len(), 2);
    let (p, origin) = view.effective_permission("primary");
    assert_eq!(p, EffectivePermission::All);
    assert_eq!(origin, PermissionOrigin::Default);
    assert_eq!(origin.label(), "default");
    let (p, _) = view.effective_permission("worker");
    assert_eq!(p, EffectivePermission::AllowList(ids(&["helper"])));
    assert_eq!(view.effective_permission("nobody").0, EffectivePermission::NoneAllowed);
    assert!(!view.is_dirty());
    assert_eq!(view.caller_selected, Some(0));
    assert_eq!(view.target_selected, Some(0));
}

#[test]
fn stored_overrides_are_read_with_warnings() {
    let view = editor(vec![
        ("ghost".to_string(), ids(&["worker"])),
        ("Worker".to_string(), ids(&["helper", "nobody", "worker"])),
        ("primary".to_string(), ids(&["ALL"])),
    ]);
    assert_eq!(
        view.warnings,
        ids(&["Unknown caller role: ghost", "Unknown targets for Worker: nobody"])
    );
    let (p, origin) = view.effective_permission("worker");
    assert_eq!(origin, PermissionOrigin::Override);
    assert!(p.allows("helper") && p.allows("worker"));
    assert_eq!(view.effective_permission("primary").0, EffectivePermission::All);
    assert!(!view.is_dirty());
}

#[test]
fn empty_override_allows_nothing() {
    let view = editor(vec![("worker".to_string(), vec![])]);
    let (p, origin) = view.effective_permission("worker");
    assert_eq!(p, EffectivePermission::NoneAllowed);
    assert_eq!(origin, PermissionOrigin::Override);
    assert_eq!(AgentSpawnConfigView::describe_permission(&p), "(none)");
}

#[test]
fn override_equal_to_default_is_dropped() {
    let mut view = editor(vec![]);
    view.set_override_allowlist_normalized("worker", ids(&["helper", "worker"]));
    assert_eq!(view.effective_permission("worker").1, PermissionOrigin::Override);
    assert!(view.is_dirty());
    view.set_override_allowlist_normalized("worker", ids(&["helper"]));
    assert_eq!(view.effective_permission("worker").1, PermissionOrigin::Default);
    assert!(view.overrides.is_empty());
    assert!(!view.is_dirty());
    view.set_override_allowlist_normalized("primary", ids(&["helper", "worker"]));
    assert!(view.overrides.is_empty());
}

#[test]
fn toggling_twice_restores_the_allowed_set() {
    let mut view = editor(vec![]);
    // caller: primary (default all), target: worker
    let before = allowed(&view, "primary");
    view.toggle_selected_target();
    assert_eq!(allowed(&view, "primary"), ids(&["helper"]));
    assert_eq!(view.effective_permission("primary").1, PermissionOrigin::Override);
    view.toggle_selected_target();
    assert_eq!(allowed(&view, "primary"), before);
    assert_eq!(view.effective_permission("primary").1, PermissionOrigin::Default);

    view.move_down();
    assert_eq!(view.caller_selected, Some(1));
    view.toggle_focus();
    view.move_down();
    assert_eq!(view.target_selected, Some(1));
    let before = allowed(&view, "worker");
    view.toggle_selected_target();
    assert_eq!(allowed(&view, "worker"), Vec::<String>::new());
    assert_eq!(view.effective_permission("worker").0, EffectivePermission::NoneAllowed);
    view.toggle_selected_target();
    assert_eq!(allowed(&view, "worker"), before);
    assert!(!view.is_dirty());
}

#[test]
fn reset_removes_override_and_cleans_editor() {
    let mut view = editor(vec![]);
    view.move_down();
    view.toggle_focus();
    view.toggle_selected_target();
    assert_eq!(
        view.overrides,
        vec![("worker".to_string(), OverridePermission::AllowList(ids(&["helper", "worker"])))]
    );
    assert!(view.is_dirty());
    view.clear_override_for_selected_caller();
    assert!(view.overrides.is_empty());
    assert!(!view.is_dirty());

    let mut view = editor(vec![("primary".to_string(), ids(&["helper"]))]);
    view.move_down();
    view.set_allow_all_for_selected_caller();
    view.clear_override_for_selected_caller();
    assert!(!view.is_dirty());
    view.move_up();
    view.clear_override_for_selected_caller();
    assert!(view.overrides.is_empty());
    assert!(view.is_dirty());
}

#[test]
fn allow_all_respects_default() {
    let mut view = editor(vec![("primary".to_string(), ids(&["helper"]))]);
    view.set_allow_all_for_selected_caller();
    assert!(view.overrides.is_empty());
    view.move_down();
    view.set_allow_all_for_selected_caller();
    assert_eq!(view.overrides, vec![("worker".to_string(), OverridePermission::All)]);
    assert_eq!(view.build_allow_overrides(), vec![("worker".to_string(), ids(&["*"]))]);
}

#[test]
fn keys_drive_the_editor() {
    let mut view = editor(vec![]);
    assert_eq!(view.handle_key(EditorKey::Activate), None);
    assert_eq!(view.focus, FocusPanel::Targets);
    assert_eq!(view.handle_key(EditorKey::Up), None);
    assert_eq!(view.target_selected, Some(1));
    view.handle_key(EditorKey::Activate);
    assert_eq!(allowed(&view, "primary"), ids(&["worker"]));
    view.handle_key(EditorKey::SwitchFocus);
    assert_eq!(view.focus, FocusPanel::Callers);
    let saved = view.handle_key(EditorKey::Save);
    assert_eq!(saved, Some(vec![("primary".to_string(), ids(&["worker"]))]));
    assert!(view.is_complete());

    let mut view = editor(vec![]);
    assert_eq!(view.handle_key(EditorKey::Save), None);
    assert!(view.is_complete());
    let mut view = editor(vec![]);
    view.handle_key(EditorKey::AllowAll);
    view.handle_key(EditorKey::Down);
    view.handle_key(EditorKey::AllowAll);
    view.handle_key(EditorKey::UseDefault);
    assert_eq!(view.handle_key(EditorKey::Quit), None);
    assert!(view.is_complete());
    assert!(!view.is_dirty());
}

#[test]
fn describe_permissions() {
    assert_eq!(AgentSpawnConfigView::describe_permission(&EffectivePermission::All), "*");
    assert_eq!(
        AgentSpawnConfigView::describe_permission(&EffectivePermission::NoneAllowed),
        "(none)"
    );
    assert_eq!(
        AgentSpawnConfigView::describe_permission(&EffectivePermission::AllowList(ids(&[
            "a", "b"
        ]))),
        "a, b"
    );
}

#[test]
fn saved_allow_lists_are_ascending() {
    let view = editor(vec![("primary".to_string(), ids(&["worker", "helper"]))]);
    assert_eq!(
        view.overrides,
        vec![("primary".to_string(), OverridePermission::AllowList(ids(&["worker", "helper"])))]
    );
    assert_eq!(
        view.build_allow_overrides(),
        vec![("primary".to_string(), ids(&["helper", "worker"]))]
    );
}
