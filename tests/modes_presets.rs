use codex_collab::modes::{
    format_mode_names, render_collaboration_mode_template,
    request_user_input_availability_message, tui_visible_collaboration_modes, ModeKind,
    KNOWN_MODE_NAMES_PLACEHOLDER, REQUEST_USER_INPUT_AVAILABILITY_PLACEHOLDER,
};
use codex_collab::presets::{
    builtin_collaboration_mode_presets, default_preset, heavy_plan_preset, heavy_preset,
    plan_preset,
};

#[test]
fn preset_names_use_mode_display_names() {
    assert_eq!(plan_preset().name, ModeKind::Plan.display_name());
    assert_eq!(default_preset().name, ModeKind::Default.display_name());
    assert_eq!(heavy_preset().name, ModeKind::Heavy.display_name());
    assert_eq!(heavy_plan_preset().name, ModeKind::HeavyPlan.display_name());
}

#[test]
fn mode_instructions_replace_mode_names_placeholder() {
    let default_instructions = default_preset()
        .developer_instructions
        .expect("default preset should include instructions")
        .expect("default instructions should be set");

    assert!(!default_instructions.contains(KNOWN_MODE_NAMES_PLACEHOLDER));
    assert!(!default_instructions.contains(REQUEST_USER_INPUT_AVAILABILITY_PLACEHOLDER));

    let known_mode_names = format_mode_names(&tui_visible_collaboration_modes());
    let expected_snippet = format!("Known mode names are {known_mode_names}.");
    assert!(default_instructions.contains(&expected_snippet));

    let expected_availability_message = request_user_input_availability_message(ModeKind::Default);
    assert!(default_instructions.contains(&expected_availability_message));

    let heavy_instructions = heavy_preset()
        .developer_instructions
        .expect("heavy preset should include instructions")
        .expect("heavy instructions should be set");
    let heavy_availability_message = request_user_input_availability_message(ModeKind::Heavy);
    assert!(heavy_instructions.contains(&heavy_availability_message));
}

#[test]
fn builtin_presets_include_all_visible_modes_in_expected_order() {
    let builtins = builtin_collaboration_mode_presets();
    let expected_modes = vec![
        Some(ModeKind::Default),
        Some(ModeKind::Plan),
        Some(ModeKind::Heavy),
        Some(ModeKind::HeavyPlan),
    ];
    let actual_modes: Vec<Option<ModeKind>> = builtins.into_iter().map(|mask| mask.mode).collect();

    assert_eq!(expected_modes, actual_modes);
}

#[test]
fn format_mode_names_joins_by_count() {
    assert_eq!(format_mode_names(&vec![]), "none");
    assert_eq!(format_mode_names(&vec![ModeKind::Plan]), "Plan");
    assert_eq!(
        format_mode_names(&vec![ModeKind::Plan, ModeKind::HeavyPlan]),
        "Plan and Heavy Plan"
    );
    assert_eq!(
        format_mode_names(&tui_visible_collaboration_modes()),
        "Default, Plan, Heavy, Heavy Plan"
    );
}

#[test]
fn availability_message_depends_on_mode() {
    assert_eq!(
        request_user_input_availability_message(ModeKind::HeavyPlan),
        "The `request_user_input` tool is available in Heavy Plan mode."
    );
    assert_eq!(
        request_user_input_availability_message(ModeKind::Default),
        "The `request_user_input` tool is unavailable in Default mode. If you call it while in Default mode, it will return an error."
    );
}

#[test]
fn heavy_plan_template_renders_both_placeholders() {
    let rendered = render_collaboration_mode_template(
        "Known mode names are {{KNOWN_MODE_NAMES}}.\n\n{{REQUEST_USER_INPUT_AVAILABILITY}}\n",
        ModeKind::HeavyPlan,
    );
    assert!(rendered.contains("Known mode names are Default, Plan, Heavy, Heavy Plan."));
    assert!(rendered.contains("The `request_user_input` tool is available in Heavy Plan mode."));
    assert!(!rendered.contains(KNOWN_MODE_NAMES_PLACEHOLDER));
    assert!(!rendered.contains(REQUEST_USER_INPUT_AVAILABILITY_PLACEHOLDER));
}

#[test]
fn template_keeps_unknown_placeholders_and_repeats() {
    let rendered = render_collaboration_mode_template(
        "{{OTHER}} {{KNOWN_MODE_NAMES}}|{{KNOWN_MODE_NAMES}}",
        ModeKind::Plan,
    );
    assert_eq!(
        rendered,
        "{{OTHER}} Default, Plan, Heavy, Heavy Plan|Default, Plan, Heavy, Heavy Plan"
    );
}
