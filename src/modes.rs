//! Collaboration modes: their names, the placeholders that mode prompts may
//! hold, and the built-in presets.
use vstd::prelude::*;

use crate::text::{
    at, brace_free, braced, join_with, lemma_at_char, lemma_replace_in_context,
    lemma_replace_keeps, lemma_replaced_pattern_gone, lemma_replacement_keeps_absent,
    lemma_tight_overlap, occurs_in, push_text, replace_all, replace_text, string_of, tight,
};

verus! {

broadcast use vstd::string::group_string_axioms;

/// A collaboration mode: a behavioural preset for an agent thread.
#[derive(Clone, Copy, Debug, PartialEq, Eq, Hash, Structural)]
pub enum ModeKind {
    Default,
    Plan,
    Heavy,
    HeavyPlan,
}

/// A reasoning-effort hint for the model.
#[derive(Clone, Copy, Debug, PartialEq, Eq, Hash, Structural)]
pub enum ReasoningEffort {
    Off,
    Minimal,
    Low,
    Medium,
    High,
    XHigh,
}

impl ModeKind {
    pub open spec fn name_spec(self) -> Seq<char> {
        match self {
            ModeKind::Default => "Default"@,
            ModeKind::Plan => "Plan"@,
            ModeKind::Heavy => "Heavy"@,
            ModeKind::HeavyPlan => "Heavy Plan"@,
        }
    }

    /// The name shown to users.
    pub fn display_name(&self) -> (r: &'static str)
        ensures
            r@ == self.name_spec(),
    {
        match self {
            ModeKind::Default => "Default",
            ModeKind::Plan => "Plan",
            ModeKind::Heavy => "Heavy",
            ModeKind::HeavyPlan => "Heavy Plan",
        }
    }

    /// Whether the interactive `request_user_input` tool may be called in
    /// this mode.
    pub open spec fn allows_input_spec(self) -> bool {
        self is Plan || self is HeavyPlan
    }

    pub fn allows_request_user_input(&self) -> (r: bool)
        ensures
            r == self.allows_input_spec(),
    {
        match self {
            ModeKind::Plan | ModeKind::HeavyPlan => true,
            _ => false,
        }
    }
}

/// The modes offered in the mode picker, in display order.
pub open spec fn visible_modes() -> Seq<ModeKind> {
    seq![ModeKind::Default, ModeKind::Plan, ModeKind::Heavy, ModeKind::HeavyPlan]
}

pub fn tui_visible_collaboration_modes() -> (r: Vec<ModeKind>)
    ensures
        r@ == visible_modes(),
{
    let r = vec![ModeKind::Default, ModeKind::Plan, ModeKind::Heavy, ModeKind::HeavyPlan];
    assert(r@ =~= visible_modes());
    r
}

pub open spec fn mode_names(modes: Seq<ModeKind>) -> Seq<Seq<char>> {
    modes.map_values(|m: ModeKind| m.name_spec())
}

/// A list in prose: `none`, `A`, `A and B`, or `A, B, C`.
pub open spec fn human_list(names: Seq<Seq<char>>) -> Seq<char> {
    if names.len() == 0 {
        "none"@
    } else if names.len() == 1 {
        names[0]
    } else if names.len() == 2 {
        names[0] + " and "@ + names[1]
    } else {
        join_with(names, ", "@)
    }
}

/// The display names of `modes` as a list in prose.
pub fn format_mode_names(modes: &Vec<ModeKind>) -> (r: String)
    ensures
        r@ == human_list(mode_names(modes@)),
{
    let ghost names = mode_names(modes@);
    let mut out: Vec<char> = Vec::new();
    if modes.len() == 0 {
        push_text(&mut out, "none");
    } else if modes.len() == 2 {
        push_text(&mut out, modes[0].display_name());
        push_text(&mut out, " and ");
        push_text(&mut out, modes[1].display_name());
    } else {
        push_text(&mut out, modes[0].display_name());
        let mut i: usize = 1;
        assert(names.take(1).drop_last() =~= Seq::<Seq<char>>::empty());
        while i < modes.len()
            invariant
                1 <= i <= modes.len(),
                modes.len() != 2,
                names == mode_names(modes@),
                out@ == join_with(names.take(i as int), ", "@),
            decreases modes.len() - i,
        {
            push_text(&mut out, ", ");
            push_text(&mut out, modes[i].display_name());
            i = i + 1;
            assert(names.take(i as int).drop_last() =~= names.take(i - 1));
        }
        assert(names.take(i as int) =~= names);
    }
    string_of(&out)
}

/// The sentence that tells whether `request_user_input` is available in a
/// mode.
pub open spec fn availability_message(mode: ModeKind) -> Seq<char> {
    if mode.allows_input_spec() {
        "The `request_user_input` tool is available in "@ + mode.name_spec() + " mode."@
    } else {
        "The `request_user_input` tool is unavailable in "@ + mode.name_spec()
            + " mode. If you call it while in "@ + mode.name_spec()
            + " mode, it will return an error."@
    }
}

pub fn request_user_input_availability_message(mode: ModeKind) -> (r: String)
    ensures
        r@ == availability_message(mode),
{
    let name = mode.display_name();
    let mut out: Vec<char> = Vec::new();
    if mode.allows_request_user_input() {
        push_text(&mut out, "The `request_user_input` tool is available in ");
        push_text(&mut out, name);
        push_text(&mut out, " mode.");
    } else {
        push_text(&mut out, "The `request_user_input` tool is unavailable in ");
        push_text(&mut out, name);
        push_text(&mut out, " mode. If you call it while in ");
        push_text(&mut out, name);
        push_text(&mut out, " mode, it will return an error.");
    }
    string_of(&out)
}

/// Stands for the list of modes shown in the picker.
pub const KNOWN_MODE_NAMES_PLACEHOLDER: &'static str = "{{KNOWN_MODE_NAMES}}";

/// Stands for the sentence on `request_user_input` in the target mode.
pub const REQUEST_USER_INPUT_AVAILABILITY_PLACEHOLDER: &'static str = "{{REQUEST_USER_INPUT_AVAILABILITY}}";

/// A mode prompt with both placeholders expanded for `mode`; any other text,
/// unknown placeholders included, is kept.
pub open spec fn rendered_template(template: Seq<char>, mode: ModeKind) -> Seq<char> {
    replace_all(
        replace_all(
            template,
            KNOWN_MODE_NAMES_PLACEHOLDER@,
            human_list(mode_names(visible_modes())),
        ),
        REQUEST_USER_INPUT_AVAILABILITY_PLACEHOLDER@,
        availability_message(mode),
    )
}

pub fn render_collaboration_mode_template(template: &str, mode: ModeKind) -> (r: String)
    ensures
        r@ == rendered_template(template@, mode),
{
    let modes = tui_visible_collaboration_modes();
    let known_mode_names = format_mode_names(&modes);
    let availability = request_user_input_availability_message(mode);
    proof {
        reveal_strlit("{{KNOWN_MODE_NAMES}}");
        reveal_strlit("{{REQUEST_USER_INPUT_AVAILABILITY}}");
    }
    let first = replace_text(template, KNOWN_MODE_NAMES_PLACEHOLDER, known_mode_names.as_str());
    replace_text(
        first.as_str(),
        REQUEST_USER_INPUT_AVAILABILITY_PLACEHOLDER,
        availability.as_str(),
    )
}

proof fn lemma_brace_free_concat(a: Seq<char>, b: Seq<char>)
    requires
        brace_free(a),
        brace_free(b),
    ensures
        brace_free(a + b),
{
    assert forall|i: int| 0 <= i < (a + b).len() implies #[trigger] (a + b)[i] != '{' && (a + b)[i] != '}' by {
        if i < a.len() {
            assert((a + b)[i] == a[i]);
        } else {
            assert((a + b)[i] == b[i - a.len()]);
        }
    }
}

proof fn lemma_mode_name_brace_free(m: ModeKind)
    ensures
        brace_free(m.name_spec()),
{
    reveal_strlit("Default");
    reveal_strlit("Plan");
    reveal_strlit("Heavy");
    reveal_strlit("Heavy Plan");
}

/// The list of visible modes, as prompts show it.
proof fn lemma_known_names_text()
    ensures
        human_list(mode_names(visible_modes())) == "Default, Plan, Heavy, Heavy Plan"@,
{
    reveal_strlit("Default");
    reveal_strlit("Plan");
    reveal_strlit("Heavy");
    reveal_strlit("Heavy Plan");
    reveal_strlit(", ");
    reveal_strlit("Default, Plan, Heavy, Heavy Plan");
    let names = mode_names(visible_modes());
    assert(names.drop_last().drop_last().drop_last() =~= seq!["Default"@]);
    assert(names.drop_last().drop_last() =~= seq!["Default"@, "Plan"@]);
    assert(names.drop_last() =~= seq!["Default"@, "Plan"@, "Heavy"@]);
    let sep = ", "@;
    assert(join_with(names.drop_last().drop_last().drop_last(), sep) == "Default"@);
    assert(join_with(names.drop_last().drop_last(), sep) == "Default"@ + sep + "Plan"@);
    assert(join_with(names.drop_last(), sep) == "Default"@ + sep + "Plan"@ + sep + "Heavy"@);
    assert(join_with(names, sep) == "Default"@ + sep + "Plan"@ + sep + "Heavy"@ + sep + "Heavy Plan"@);
    assert("Default"@ + sep + "Plan"@ + sep + "Heavy"@ + sep + "Heavy Plan"@ =~= "Default, Plan, Heavy, Heavy Plan"@);
}

proof fn lemma_availability_shape(mode: ModeKind)
    ensures
        brace_free(availability_message(mode)),
        availability_message(mode).len() >= 46,
{
    lemma_mode_name_brace_free(mode);
    reveal_strlit("The `request_user_input` tool is available in ");
    reveal_strlit(" mode.");
    reveal_strlit("The `request_user_input` tool is unavailable in ");
    reveal_strlit(" mode. If you call it while in ");
    reveal_strlit(" mode, it will return an error.");
    let n = mode.name_spec();
    if mode.allows_input_spec() {
        let a = "The `request_user_input` tool is available in "@;
        assert(brace_free(a));
        assert(brace_free(" mode."@));
        lemma_brace_free_concat(a, n);
        lemma_brace_free_concat(a + n, " mode."@);
    } else {
        let a = "The `request_user_input` tool is unavailable in "@;
        let b = " mode. If you call it while in "@;
        let c = " mode, it will return an error."@;
        assert(brace_free(a));
        assert(brace_free(b));
        assert(brace_free(c));
        lemma_brace_free_concat(a, n);
        lemma_brace_free_concat(a + n, b);
        lemma_brace_free_concat(a + n + b, n);
        lemma_brace_free_concat(a + n + b + n, c);
    }
}

/// A rendered mode prompt holds neither placeholder, whatever the template
/// and the mode.
pub proof fn lemma_rendered_has_no_placeholder(template: Seq<char>, mode: ModeKind)
    ensures
        !occurs_in(rendered_template(template, mode), KNOWN_MODE_NAMES_PLACEHOLDER@),
        !occurs_in(rendered_template(template, mode), REQUEST_USER_INPUT_AVAILABILITY_PLACEHOLDER@),
{
    reveal_strlit("{{KNOWN_MODE_NAMES}}");
    reveal_strlit("{{REQUEST_USER_INPUT_AVAILABILITY}}");
    reveal_strlit("Default, Plan, Heavy, Heavy Plan");
    let known = KNOWN_MODE_NAMES_PLACEHOLDER@;
    let avail = REQUEST_USER_INPUT_AVAILABILITY_PLACEHOLDER@;
    let names = human_list(mode_names(visible_modes()));
    lemma_known_names_text();
    assert(brace_free(names));
    assert(braced(known));
    assert(braced(avail));
    lemma_availability_shape(mode);
    let first = replace_all(template, known, names);
    lemma_replaced_pattern_gone(template, known, names);
    lemma_replaced_pattern_gone(first, avail, availability_message(mode));
    lemma_replacement_keeps_absent(first, avail, availability_message(mode), known);
}

proof fn lemma_placeholders_tight()
    ensures
        tight(KNOWN_MODE_NAMES_PLACEHOLDER@),
        tight(REQUEST_USER_INPUT_AVAILABILITY_PLACEHOLDER@),
        KNOWN_MODE_NAMES_PLACEHOLDER@.len() == 20,
        REQUEST_USER_INPUT_AVAILABILITY_PLACEHOLDER@.len() == 35,
{
    reveal_strlit("{{KNOWN_MODE_NAMES}}");
    reveal_strlit("{{REQUEST_USER_INPUT_AVAILABILITY}}");
}

/// Rendering keeps the sentence that introduces the mode names, with the
/// names filled in, and puts the availability sentence wherever its
/// placeholder stood.
pub proof fn lemma_rendered_keeps_sentences(template: Seq<char>, mode: ModeKind)
    ensures
        occurs_in(template, "Known mode names are {{KNOWN_MODE_NAMES}}."@) ==> occurs_in(
            rendered_template(template, mode),
            "Known mode names are Default, Plan, Heavy, Heavy Plan."@,
        ),
        occurs_in(template, REQUEST_USER_INPUT_AVAILABILITY_PLACEHOLDER@) ==> occurs_in(
            rendered_template(template, mode),
            availability_message(mode),
        ),
{
    let known = KNOWN_MODE_NAMES_PLACEHOLDER@;
    let avail = REQUEST_USER_INPUT_AVAILABILITY_PLACEHOLDER@;
    let names = human_list(mode_names(visible_modes()));
    let message = availability_message(mode);
    lemma_placeholders_tight();
    lemma_known_names_text();
    lemma_availability_shape(mode);
    reveal_strlit("Known mode names are ");
    reveal_strlit(".");
    reveal_strlit("{{KNOWN_MODE_NAMES}}");
    reveal_strlit("Known mode names are {{KNOWN_MODE_NAMES}}.");
    reveal_strlit("Default, Plan, Heavy, Heavy Plan");
    reveal_strlit("Known mode names are Default, Plan, Heavy, Heavy Plan.");
    let x = "Known mode names are "@;
    let y = "."@;
    assert(brace_free(x));
    assert(brace_free(y));
    assert(brace_free(names));
    let first = replace_all(template, known, names);
    if occurs_in(template, "Known mode names are {{KNOWN_MODE_NAMES}}."@) {
        let w = "Known mode names are {{KNOWN_MODE_NAMES}}."@;
        assert(w =~= x + known + y);
        let k = choose|k: int| 0 <= k && k + w.len() <= template.len() && #[trigger] template.subrange(k, k + w.len()) == w;
        assert(at(template, x + known + y, k));
        assert(at(template, known, k + 21)) by {
            assert(x.len() == 21);
            assert(w.len() == 42);
            assert(w.subrange(21, 41) =~= known);
            assert(template.subrange(k + 21, k + 41) =~= template.subrange(k, k + 42).subrange(21, 41));
        }
        assert forall|j: int| j < k + 42 && k < j + 20 && at(template, known, j) implies j == k + 21 by {
            if j < k + 41 && k + 21 < j + 20 {
                lemma_tight_overlap(template, known, j, known, k + 21);
            } else if j + 20 <= k + 21 {
                lemma_at_char(template, known, j, 19);
                lemma_at_char(template, w, k, j + 19 - k);
            } else {
                lemma_at_char(template, known, j, 0);
                lemma_at_char(template, w, k, j - k);
            }
        }
        lemma_replace_in_context(template, known, names, k, x, y);
        let z = x + names + y;
        lemma_brace_free_concat(x, names);
        lemma_brace_free_concat(x + names, y);
        assert(z =~= "Known mode names are Default, Plan, Heavy, Heavy Plan."@);
        let k2 = choose|k2: int| 0 <= k2 && k2 + z.len() <= first.len() && #[trigger] first.subrange(k2, k2 + z.len()) == z;
        assert forall|j: int| j < k2 + z.len() && k2 < j + 35 implies !at(first, avail, j) by {
            if at(first, avail, j) {
                assert(at(first, z, k2));
                if j >= k2 {
                    lemma_at_char(first, avail, j, 0);
                    lemma_at_char(first, z, k2, j - k2);
                } else {
                    lemma_at_char(first, avail, j, 34);
                    lemma_at_char(first, z, k2, j + 34 - k2);
                }
            }
        }
        lemma_replace_keeps(first, avail, message, k2, z);
    }
    if occurs_in(template, avail) {
        let k = choose|k: int| 0 <= k && k + avail.len() <= template.len() && #[trigger] template.subrange(k, k + avail.len()) == avail;
        assert forall|j: int| j < k + 35 && k < j + 20 implies !at(template, known, j) by {
            if at(template, known, j) {
                lemma_tight_overlap(template, known, j, avail, k);
            }
        }
        lemma_replace_keeps(template, known, names, k, avail);
        let k2 = choose|k2: int| 0 <= k2 && k2 + avail.len() <= first.len() && #[trigger] first.subrange(k2, k2 + avail.len()) == avail;
        let e = Seq::<char>::empty();
        assert(e + avail + e =~= avail);
        assert(e + message + e =~= message);
        assert forall|j: int| j < k2 + 35 && k2 < j + 35 && at(first, avail, j) implies j == k2 by {
            lemma_tight_overlap(first, avail, j, avail, k2);
        }
        lemma_replace_in_context(first, avail, message, k2, e, e);
    }
}

} // verus!
