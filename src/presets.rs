//! The built-in collaboration-mode presets, available with no plugin.
use vstd::prelude::*;

use crate::modes::{
    ModeKind, ReasoningEffort, rendered_template, render_collaboration_mode_template,
};

verus! {

/// Prompt of the default mode; its placeholders are expanded.
pub const DEFAULT_MODE_TEMPLATE: &'static str = "# Collaboration Mode: Default\n\nYou work directly on the user's request and carry it through to a result.\nKnown mode names are {{KNOWN_MODE_NAMES}}.\n\n{{REQUEST_USER_INPUT_AVAILABILITY}}\n";

/// Prompt of the plan mode, used as written.
pub const PLAN_MODE_TEMPLATE: &'static str = "# Collaboration Mode: Plan\n\nYou plan before you act: explore, ask what is unclear, and propose a plan for the user to approve.\n";

/// Prompt of the heavy mode; its placeholders are expanded.
pub const HEAVY_MODE_TEMPLATE: &'static str = "# Collaboration Mode: Heavy\n\nYou may split the work among sub-agents and combine what they report.\nKnown mode names are {{KNOWN_MODE_NAMES}}.\n\n{{REQUEST_USER_INPUT_AVAILABILITY}}\n";

/// Prompt of the heavy plan mode, used as written.
pub const HEAVY_PLAN_MODE_TEMPLATE: &'static str = "# Collaboration Mode: Heavy Plan\n\nYou plan with the help of sub-agents, then present one plan for the user to approve.\n";

/// A named preset that selects a mode and, optionally, its settings.
#[derive(Clone, Debug, PartialEq, Eq)]
pub struct CollaborationModeMask {
    pub name: String,
    pub mode: Option<ModeKind>,
    pub model: Option<String>,
    pub reasoning_effort: Option<Option<ReasoningEffort>>,
    pub developer_instructions: Option<Option<String>>,
}

/// Whether `m` is the built-in preset of `mode`: named after the mode, with
/// no model, the given effort hint and the given instructions.
pub open spec fn is_preset(
    m: CollaborationModeMask,
    mode: ModeKind,
    effort: Option<Option<ReasoningEffort>>,
    instructions: Seq<char>,
) -> bool {
    &&& m.name@ == mode.name_spec()
    &&& m.mode == Some(mode)
    &&& m.model is None
    &&& m.reasoning_effort == effort
    &&& m.developer_instructions matches Some(Some(text)) && text@ == instructions
}

pub fn default_preset() -> (r: CollaborationModeMask)
    ensures
        is_preset(r, ModeKind::Default, None, rendered_template(DEFAULT_MODE_TEMPLATE@, ModeKind::Default)),
{
    CollaborationModeMask {
        name: ModeKind::Default.display_name().to_string(),
        mode: Some(ModeKind::Default),
        model: None,
        reasoning_effort: None,
        developer_instructions: Some(
            Some(render_collaboration_mode_template(DEFAULT_MODE_TEMPLATE, ModeKind::Default)),
        ),
    }
}

pub fn plan_preset() -> (r: CollaborationModeMask)
    ensures
        is_preset(r, ModeKind::Plan, Some(Some(ReasoningEffort::Medium)), PLAN_MODE_TEMPLATE@),
{
    CollaborationModeMask {
        name: ModeKind::Plan.display_name().to_string(),
        mode: Some(ModeKind::Plan),
        model: None,
        reasoning_effort: Some(Some(ReasoningEffort::Medium)),
        developer_instructions: Some(Some(PLAN_MODE_TEMPLATE.to_string())),
    }
}

pub fn heavy_preset() -> (r: CollaborationModeMask)
    ensures
        is_preset(r, ModeKind::Heavy, None, rendered_template(HEAVY_MODE_TEMPLATE@, ModeKind::Heavy)),
{
    CollaborationModeMask {
        name: ModeKind::Heavy.display_name().to_string(),
        mode: Some(ModeKind::Heavy),
        model: None,
        reasoning_effort: None,
        developer_instructions: Some(
            Some(render_collaboration_mode_template(HEAVY_MODE_TEMPLATE, ModeKind::Heavy)),
        ),
    }
}

pub fn heavy_plan_preset() -> (r: CollaborationModeMask)
    ensures
        is_preset(
            r,
            ModeKind::HeavyPlan,
            Some(Some(ReasoningEffort::Medium)),
            HEAVY_PLAN_MODE_TEMPLATE@,
        ),
{
    CollaborationModeMask {
        name: ModeKind::HeavyPlan.display_name().to_string(),
        mode: Some(ModeKind::HeavyPlan),
        model: None,
        reasoning_effort: Some(Some(ReasoningEffort::Medium)),
        developer_instructions: Some(Some(HEAVY_PLAN_MODE_TEMPLATE.to_string())),
    }
}

/// The four built-in presets, in the order the mode picker lists them:
/// Default, Plan, Heavy, Heavy Plan.
pub fn builtin_collaboration_mode_presets() -> (r: Vec<CollaborationModeMask>)
    ensures
        r.len() == 4,
        is_preset(r[0], ModeKind::Default, None, rendered_template(DEFAULT_MODE_TEMPLATE@, ModeKind::Default)),
        is_preset(r[1], ModeKind::Plan, Some(Some(ReasoningEffort::Medium)), PLAN_MODE_TEMPLATE@),
        is_preset(r[2], ModeKind::Heavy, None, rendered_template(HEAVY_MODE_TEMPLATE@, ModeKind::Heavy)),
        is_preset(
            r[3],
            ModeKind::HeavyPlan,
            Some(Some(ReasoningEffort::Medium)),
            HEAVY_PLAN_MODE_TEMPLATE@,
        ),
{
    vec![default_preset(), plan_preset(), heavy_preset(), heavy_plan_preset()]
}

} // verus!
