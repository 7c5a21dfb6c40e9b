use codex_collab::modes::{ModeKind, ReasoningEffort};
use codex_collab::registry::{
    CategoryManifest, FoundManifest, LoadError, ModeOverrideManifest, PathError, PluginInfo,
    PluginManifest, PluginRegistry, RoleKind, RoleManifest, UiManifest,
};

fn manifest(id: &str) -> PluginManifest {
    PluginManifest {
        plugin: PluginInfo { id: id.to_string(), default_agent_role: None },
        collaboration_modes: vec![],
        roles: vec![],
        categories: vec![],
        ui: UiManifest {
            tab_picker_roles: vec![],
            agent_config_callers: vec![],
            agent_config_targets: vec![],
        },
        spawn_defaults_allow: vec![],
    }
}

fn role(kind: RoleKind, prompt_file: &str) -> RoleManifest {
    RoleManifest {
        kind,
        label: None,
        description: None,
        prompt_file: prompt_file.to_string(),
        prompt_readable: true,
        read_only: None,
        allows_collab_tools: None,
        model: None,
        reasoning_effort: None,
    }
}

fn found(dir: &str, m: PluginManifest) -> FoundManifest {
    FoundManifest { plugin_dir: dir.to_string(), manifest: m }
}

fn ids(v: &[&str]) -> Vec<String> {
    v.iter().map(|s| s.to_string()).collect()
}

#[test]
fn collaboration_mode_override_renders_placeholders() {
    let mut m = manifest("collab-prompts");
    m.collaboration_modes.push(ModeOverrideManifest {
        mode: ModeKind::HeavyPlan,
        prompt_file: "modes/heavy_plan.md".to_string(),
        prompt_text: Some(
            "Known mode names are {{KNOWN_MODE_NAMES}}.\n\n{{REQUEST_USER_INPUT_AVAILABILITY}}\n"
                .to_string(),
        ),
    });
    let plugins = PluginRegistry::load(
        &ids(&["collab-prompts"]),
        &vec![found("/home/plugins/collab-prompts", m)],
        &ids(&["/home/plugins"]),
    )
    .expect("load plugins");

    let override_text = plugins
        .collaboration_mode_override(ModeKind::HeavyPlan)
        .expect("override should exist");

    assert!(override_text.contains("Known mode names are Default, Plan, Heavy, Heavy Plan."));
    assert_eq!(
        true,
        override_text.contains("The `request_user_input` tool is available in Heavy Plan mode.")
    );
}

#[test]
fn empty_enabled_list_gives_empty_registry() {
    let reg = PluginRegistry::load(&vec![], &vec![], &vec![]).expect("empty load");
    assert!(reg.is_empty());
    let reg = PluginRegistry::load(&ids(&["  ", "\t"]), &vec![found("d", manifest("x"))], &vec![])
        .expect("blank ids load");
    assert!(reg.is_empty());
    assert_eq!(reg.default_agent_role(), None);
}

#[test]
fn two_plugins_with_distinct_roles_merge() {
    let mut a = manifest("Alpha");
    a.plugin.default_agent_role = Some("Lead_Agent".to_string());
    a.roles.push(("Lead_Agent".to_string(), role(RoleKind::Primary, "lead.md")));
    a.roles.push(("worker".to_string(), role(RoleKind::Spawnable, "w.md")));
    let mut b = manifest("beta");
    b.plugin.default_agent_role = Some("other".to_string());
    let mut r = role(RoleKind::Spawnable, "prompts/helper.md");
    r.label = Some("Helper".to_string());
    r.read_only = Some(true);
    r.allows_collab_tools = Some(false);
    r.model = Some("m1".to_string());
    r.reasoning_effort = Some(ReasoningEffort::High);
    b.roles.push(("helper".to_string(), r));
    b.categories.push((
        "Docs_Cat".to_string(),
        CategoryManifest { label: None, prompt_append_file: "docs.md".to_string(), prompt_append_readable: true },
    ));
    let reg = PluginRegistry::load(
        &ids(&["alpha", "BETA", "alpha"]),
        &vec![found("/p/beta", b), found("/p/alpha", a)],
        &ids(&["/p"]),
    )
    .expect("load");
    assert_eq!(reg.enabled_plugin_ids(), &ids(&["alpha", "beta"]));
    assert_eq!(reg.default_agent_role(), Some("lead-agent"));
    assert_eq!(reg.roles().len(), 3);
    let lead = reg.role("LEAD_AGENT").expect("lead role");
    assert_eq!(lead.plugin_id, "alpha");
    assert_eq!(lead.label, "lead-agent");
    assert_eq!(lead.prompt_path, "/p/alpha/lead.md");
    assert!(!lead.read_only);
    assert!(lead.allows_collab_tools);
    let helper = reg.role("helper").expect("helper role");
    assert_eq!(helper.plugin_id, "beta");
    assert_eq!(helper.label, "Helper");
    assert_eq!(helper.prompt_path, "/p/beta/prompts/helper.md");
    assert!(helper.read_only);
    assert!(!helper.allows_collab_tools);
    assert_eq!(helper.model.as_deref(), Some("m1"));
    assert_eq!(helper.reasoning_effort, Some(ReasoningEffort::High));
    let spawnable: Vec<String> = reg.spawnable_roles().into_iter().map(|r| r.id).collect();
    assert_eq!(spawnable, ids(&["worker", "helper"]));
    let cat = reg.category("docs-cat").expect("category");
    assert_eq!(cat.label, "Docs_Cat");
    assert_eq!(cat.prompt_append_path, "/p/beta/docs.md");
    assert_eq!(reg.role_prompt_path("worker"), Some("/p/alpha/w.md"));
    assert_eq!(reg.category_prompt_append_path("nope"), None);
}

#[test]
fn same_role_in_two_plugins_fails() {
    let mut a = manifest("a");
    a.roles.push(("Shared_Role".to_string(), role(RoleKind::Spawnable, "x.md")));
    let mut b = manifest("b");
    b.roles.push(("shared-role".to_string(), role(RoleKind::Spawnable, "y.md")));
    let r = PluginRegistry::load(&ids(&["a", "b"]), &vec![found("/a", a), found("/b", b)], &vec![]);
    assert_eq!(r, Err(LoadError::DuplicateRole("shared-role".to_string())));
}

#[test]
fn duplicate_and_missing_plugins_fail() {
    let r = PluginRegistry::load(
        &ids(&["a"]),
        &vec![found("/x/a", manifest("a")), found("/y/a", manifest("A"))],
        &ids(&["/x", "/y"]),
    );
    assert_eq!(
        r,
        Err(LoadError::DuplicatePlugin { plugin_id: "a".to_string(), searched: ids(&["/x", "/y"]) })
    );
    let r = PluginRegistry::load(&ids(&["a", "b"]), &vec![found("/x/a", manifest("a"))], &ids(&["/x"]));
    assert_eq!(
        r,
        Err(LoadError::MissingPlugins { missing: ids(&["b"]), searched: ids(&["/x"]) })
    );
    // a duplicate of a plugin that is not enabled is ignored
    let r = PluginRegistry::load(
        &ids(&["a"]),
        &vec![found("/x/a", manifest("a")), found("/x/c", manifest("c")), found("/y/c", manifest("c"))],
        &vec![],
    );
    assert!(r.is_ok());
}

fn mode_override(mode: ModeKind, file: &str, text: Option<&str>) -> ModeOverrideManifest {
    ModeOverrideManifest {
        mode,
        prompt_file: file.to_string(),
        prompt_text: text.map(|t| t.to_string()),
    }
}

#[test]
fn mode_prompt_errors() {
    let load = |o: ModeOverrideManifest| {
        let mut m = manifest("p");
        m.collaboration_modes.push(o);
        PluginRegistry::load(&ids(&["p"]), &vec![found("/d", m)], &vec![])
    };
    assert_eq!(
        load(mode_override(ModeKind::Plan, "../x.md", Some("t"))),
        Err(LoadError::InvalidModePromptPath {
            mode: ModeKind::Plan,
            error: PathError::ParentDir("../x.md".to_string())
        })
    );
    assert_eq!(
        load(mode_override(ModeKind::Plan, "x.md", None)),
        Err(LoadError::UnreadableModePrompt { mode: ModeKind::Plan, path: "/d/x.md".to_string() })
    );
    assert_eq!(
        load(mode_override(ModeKind::Plan, "x.md", Some(" \n\t"))),
        Err(LoadError::EmptyModePrompt { path: "/d/x.md".to_string() })
    );
    assert_eq!(
        load(mode_override(ModeKind::Plan, "x.md", Some("{{KNOWN_MODE_NAMES}}")))
            .map(|r| r.collaboration_mode_override(ModeKind::Plan).map(|s| s.to_string())),
        Ok(Some("Default, Plan, Heavy, Heavy Plan".to_string()))
    );

    let mut a = manifest("a");
    a.collaboration_modes.push(mode_override(ModeKind::Heavy, "h.md", Some("one")));
    let mut b = manifest("b");
    b.collaboration_modes.push(mode_override(ModeKind::Heavy, "h.md", Some("two")));
    assert_eq!(
        PluginRegistry::load(&ids(&["a", "b"]), &vec![found("/a", a), found("/b", b)], &vec![]),
        Err(LoadError::DuplicateModeOverride(ModeKind::Heavy))
    );
}

#[test]
fn role_and_category_path_errors() {
    let mut m = manifest("p");
    m.roles.push(("r".to_string(), role(RoleKind::Hidden, "/abs.md")));
    assert_eq!(
        PluginRegistry::load(&ids(&["p"]), &vec![found("/d", m)], &vec![]),
        Err(LoadError::InvalidRolePromptPath {
            role: "r".to_string(),
            error: PathError::MustBeRelative("/abs.md".to_string())
        })
    );
    let mut m = manifest("p");
    m.categories.push((
        "c".to_string(),
        CategoryManifest { label: None, prompt_append_file: "a/../b".to_string(), prompt_append_readable: true },
    ));
    assert_eq!(
        PluginRegistry::load(&ids(&["p"]), &vec![found("/d", m)], &vec![]),
        Err(LoadError::InvalidCategoryPromptPath {
            category: "c".to_string(),
            error: PathError::ParentDir("a/../b".to_string())
        })
    );
    let mut a = manifest("a");
    a.categories.push(("c".to_string(), CategoryManifest { label: None, prompt_append_file: "c.md".to_string(), prompt_append_readable: true }));
    let mut b = manifest("b");
    b.categories.push(("C".to_string(), CategoryManifest { label: None, prompt_append_file: "c.md".to_string(), prompt_append_readable: true }));
    assert_eq!(
        PluginRegistry::load(&ids(&["a", "b"]), &vec![found("/a", a), found("/b", b)], &vec![]),
        Err(LoadError::DuplicateCategory("c".to_string()))
    );
}

#[test]
fn spawn_defaults_and_ui_lists_merge_in_order() {
    let mut a = manifest("a");
    a.spawn_defaults_allow.push(("Primary".to_string(), ids(&["worker"])));
    a.ui.tab_picker_roles = ids(&["Primary", " "]);
    a.ui.agent_config_callers = ids(&["primary"]);
    let mut b = manifest("b");
    b.spawn_defaults_allow.push(("primary".to_string(), ids(&["*"])));
    b.ui.tab_picker_roles = ids(&["Helper_One"]);
    b.ui.agent_config_targets = ids(&["worker"]);
    let reg = PluginRegistry::load(&ids(&["a", "b"]), &vec![found("/a", a), found("/b", b)], &vec![])
        .expect("load");
    assert_eq!(reg.spawn_defaults_allow(), &vec![("primary".to_string(), ids(&["*"]))]);
    assert_eq!(reg.ui().tab_picker_roles, ids(&["primary", "helper-one"]));
    assert_eq!(reg.ui().agent_config_callers, ids(&["primary"]));
    assert_eq!(reg.ui().agent_config_targets, ids(&["worker"]));
}

#[test]
fn unreadable_role_and_category_prompts_fail() {
    let mut m = manifest("p");
    let mut r = role(RoleKind::Spawnable, "missing.md");
    r.prompt_readable = false;
    m.roles.push(("r".to_string(), r));
    assert_eq!(
        PluginRegistry::load(&ids(&["p"]), &vec![found("/d", m)], &vec![]),
        Err(LoadError::UnreadableRolePrompt { role: "r".to_string(), path: "/d/missing.md".to_string() })
    );
    let mut m = manifest("p");
    m.categories.push((
        "c".to_string(),
        CategoryManifest {
            label: None,
            prompt_append_file: "gone.md".to_string(),
            prompt_append_readable: false,
        },
    ));
    assert_eq!(
        PluginRegistry::load(&ids(&["p"]), &vec![found("/d", m)], &vec![]),
        Err(LoadError::UnreadableCategoryPrompt {
            category: "c".to_string(),
            path: "/d/gone.md".to_string()
        })
    );
}
