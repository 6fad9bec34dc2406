//! Centralized authorization identity resolution.
//!
//! The privacy matrix is keyed on canonical capability identities: standalone
//! tools use their bare name (`"eval_js"`), and compound tools use a
//! dot-qualified `tool.action` identity (`"window.manage"`, `"inspect.styles"`).
//! The mapping is explicit because some action names differ from their matrix
//! ids (inspect's `get_styles` is `inspect.styles`).
use vstd::prelude::*;

use crate::json::{json_str_field, json_value_string};
use crate::text::{opt_str_view, owned, str_eq};

verus! {

/// The compound tools: those that carry an `action` field and whose
/// per-action capability is gated individually.
pub const COMPOUND_TOOLS: [&'static str; 15] = [
    "interact",
    "input",
    "window",
    "storage",
    "navigate",
    "recording",
    "inspect",
    "css",
    "route",
    "trace",
    "animation",
    "logs",
    "introspect",
    "fault",
    "explain",
];

// ---------------------------------------------------------------------------
// The capability matrix
// ---------------------------------------------------------------------------

/// `tool` is one of the compound tools.
pub open spec fn compound_tool(tool: Seq<char>) -> bool {
    ||| tool == "interact"@
    ||| tool == "input"@
    ||| tool == "window"@
    ||| tool == "storage"@
    ||| tool == "navigate"@
    ||| tool == "recording"@
    ||| tool == "inspect"@
    ||| tool == "css"@
    ||| tool == "route"@
    ||| tool == "trace"@
    ||| tool == "animation"@
    ||| tool == "logs"@
    ||| tool == "introspect"@
    ||| tool == "fault"@
    ||| tool == "explain"@
}

/// The dot-qualified identity `tool.action`.
pub open spec fn dotted(tool: Seq<char>, action: Seq<char>) -> Seq<char> {
    tool + "."@ + action
}

/// Actions of `tool` whose matrix identity is exactly `tool.action`.
pub open spec fn dotted_action(tool: Seq<char>, a: Seq<char>) -> bool {
    if tool == "interact"@ {
        a == "click"@ || a == "double_click"@ || a == "hover"@ || a == "focus"@ || a
            == "scroll_into_view"@ || a == "select_option"@
    } else if tool == "input"@ {
        a == "fill"@ || a == "type_text"@ || a == "press_key"@
    } else if tool == "window"@ {
        a == "get_state"@ || a == "list"@ || a == "manage"@ || a == "resize"@ || a
            == "move_to"@ || a == "set_title"@ || a == "introspectability"@
    } else if tool == "storage"@ {
        a == "get"@ || a == "set"@ || a == "delete"@ || a == "get_cookies"@
    } else if tool == "navigate"@ {
        a == "go_to"@ || a == "go_back"@ || a == "get_history"@ || a
            == "set_dialog_response"@ || a == "get_dialog_log"@
    } else if tool == "recording"@ {
        a == "start"@ || a == "stop"@ || a == "checkpoint"@ || a == "list_checkpoints"@ || a
            == "get_events"@ || a == "events_between"@ || a == "get_replay"@ || a == "export"@
            || a == "import"@ || a == "replay"@ || a == "flush"@
    } else if tool == "css"@ {
        a == "inject"@ || a == "remove"@
    } else if tool == "route"@ {
        a == "add"@ || a == "list"@ || a == "clear"@ || a == "clear_all"@ || a == "matches"@
    } else if tool == "trace"@ {
        a == "start"@ || a == "stop"@ || a == "status"@ || a == "frames"@
    } else if tool == "animation"@ {
        a == "list"@ || a == "scrub"@ || a == "sample"@
    } else if tool == "logs"@ {
        a == "console"@ || a == "network"@ || a == "ipc"@ || a == "navigation"@ || a
            == "dialogs"@ || a == "events"@ || a == "slow_ipc"@ || a == "clear"@
    } else if tool == "introspect"@ {
        true
    } else if tool == "fault"@ {
        a == "inject"@ || a == "list"@ || a == "clear"@ || a == "clear_all"@
    } else if tool == "explain"@ {
        a == "summary"@ || a == "last_action"@ || a == "diff"@
    } else {
        false
    }
}

/// The inspect actions, whose matrix identities differ from their names.
pub open spec fn inspect_identity(a: Seq<char>) -> Option<Seq<char>> {
    if a == "get_styles"@ {
        Some("inspect.styles"@)
    } else if a == "get_bounding_boxes"@ {
        Some("inspect.bounds"@)
    } else if a == "highlight"@ {
        Some("inspect.highlight"@)
    } else if a == "clear_highlights"@ {
        Some("inspect.clear_highlights"@)
    } else if a == "audit_accessibility"@ {
        Some("inspect.audit_a11y"@)
    } else if a == "get_performance"@ {
        Some("inspect.performance"@)
    } else {
        None
    }
}

/// The canonical matrix identity of `(tool, action)`, or `None` when the pair
/// is not a recognised compound-tool action.
pub open spec fn capability_id(tool: Seq<char>, action: Seq<char>) -> Option<Seq<char>> {
    if tool == "inspect"@ {
        inspect_identity(action)
    } else if dotted_action(tool, action) {
        Some(dotted(tool, action))
    } else {
        None
    }
}

/// The identity checked for a call of `tool` whose `action` field is `action`
/// (`None` when absent or not a string): the bare tool name for standalone
/// tools and for unrecognised actions, else the matrix identity.
pub open spec fn capability_for_spec(tool: Seq<char>, action: Option<Seq<char>>) -> Seq<char> {
    if !compound_tool(tool) {
        tool
    } else {
        match action {
            None => tool,
            Some(a) => match capability_id(tool, a) {
                Some(id) => id,
                None => tool,
            },
        }
    }
}

// ---------------------------------------------------------------------------
// Executable resolution
// ---------------------------------------------------------------------------

/// Returns `true` if `tool` is a compound tool (dispatches on an `action` field).
pub fn is_compound_tool(tool: &str) -> (r: bool)
    ensures
        r == compound_tool(tool@),
{
    str_eq(tool, "interact") || str_eq(tool, "input") || str_eq(tool, "window") || str_eq(
        tool,
        "storage",
    ) || str_eq(tool, "navigate") || str_eq(tool, "recording") || str_eq(tool, "inspect")
        || str_eq(tool, "css") || str_eq(tool, "route") || str_eq(tool, "trace") || str_eq(
        tool,
        "animation",
    ) || str_eq(tool, "logs") || str_eq(tool, "introspect") || str_eq(tool, "fault")
        || str_eq(tool, "explain")
}

fn is_dotted_action(tool: &str, a: &str) -> (r: bool)
    ensures
        r == dotted_action(tool@, a@),
{
    if str_eq(tool, "interact") {
        str_eq(a, "click") || str_eq(a, "double_click") || str_eq(a, "hover") || str_eq(
            a,
            "focus",
        ) || str_eq(a, "scroll_into_view") || str_eq(a, "select_option")
    } else if str_eq(tool, "input") {
        str_eq(a, "fill") || str_eq(a, "type_text") || str_eq(a, "press_key")
    } else if str_eq(tool, "window") {
        str_eq(a, "get_state") || str_eq(a, "list") || str_eq(a, "manage") || str_eq(
            a,
            "resize",
        ) || str_eq(a, "move_to") || str_eq(a, "set_title") || str_eq(a, "introspectability")
    } else if str_eq(tool, "storage") {
        str_eq(a, "get") || str_eq(a, "set") || str_eq(a, "delete") || str_eq(a, "get_cookies")
    } else if str_eq(tool, "navigate") {
        str_eq(a, "go_to") || str_eq(a, "go_back") || str_eq(a, "get_history") || str_eq(
            a,
            "set_dialog_response",
        ) || str_eq(a, "get_dialog_log")
    } else if str_eq(tool, "recording") {
        str_eq(a, "start") || str_eq(a, "stop") || str_eq(a, "checkpoint") || str_eq(
            a,
            "list_checkpoints",
        ) || str_eq(a, "get_events") || str_eq(a, "events_between") || str_eq(a, "get_replay")
            || str_eq(a, "export") || str_eq(a, "import") || str_eq(a, "replay") || str_eq(
            a,
            "flush",
        )
    } else if str_eq(tool, "css") {
        str_eq(a, "inject") || str_eq(a, "remove")
    } else if str_eq(tool, "route") {
        str_eq(a, "add") || str_eq(a, "list") || str_eq(a, "clear") || str_eq(a, "clear_all")
            || str_eq(a, "matches")
    } else if str_eq(tool, "trace") {
        str_eq(a, "start") || str_eq(a, "stop") || str_eq(a, "status") || str_eq(a, "frames")
    } else if str_eq(tool, "animation") {
        str_eq(a, "list") || str_eq(a, "scrub") || str_eq(a, "sample")
    } else if str_eq(tool, "logs") {
        str_eq(a, "console") || str_eq(a, "network") || str_eq(a, "ipc") || str_eq(
            a,
            "navigation",
        ) || str_eq(a, "dialogs") || str_eq(a, "events") || str_eq(a, "slow_ipc") || str_eq(
            a,
            "clear",
        )
    } else if str_eq(tool, "introspect") {
        true
    } else if str_eq(tool, "fault") {
        str_eq(a, "inject") || str_eq(a, "list") || str_eq(a, "clear") || str_eq(a, "clear_all")
    } else if str_eq(tool, "explain") {
        str_eq(a, "summary") || str_eq(a, "last_action") || str_eq(a, "diff")
    } else {
        false
    }
}

fn inspect_capability(a: &str) -> (r: Option<String>)
    ensures
        match r {
            Some(id) => inspect_identity(a@) == Some(id@),
            None => inspect_identity(a@) is None,
        },
{
    if str_eq(a, "get_styles") {
        Some(owned("inspect.styles"))
    } else if str_eq(a, "get_bounding_boxes") {
        Some(owned("inspect.bounds"))
    } else if str_eq(a, "highlight") {
        Some(owned("inspect.highlight"))
    } else if str_eq(a, "clear_highlights") {
        Some(owned("inspect.clear_highlights"))
    } else if str_eq(a, "audit_accessibility") {
        Some(owned("inspect.audit_a11y"))
    } else if str_eq(a, "get_performance") {
        Some(owned("inspect.performance"))
    } else {
        None
    }
}

/// Map a `(compound tool, action)` pair to its canonical matrix identity.
///
/// Returns `None` for an unrecognized action (caller falls back to the bare tool
/// name, which fails closed in restricted profiles).
pub fn action_capability(tool: &str, action: &str) -> (r: Option<String>)
    ensures
        match r {
            Some(id) => capability_id(tool@, action@) == Some(id@),
            None => capability_id(tool@, action@) is None,
        },
{
    if str_eq(tool, "inspect") {
        inspect_capability(action)
    } else if is_dotted_action(tool, action) {
        let mut id = owned(tool);
        id.append(".");
        id.append(action);
        Some(id)
    } else {
        None
    }
}

/// The identity checked for a call of `tool` whose `action` field reads
/// `action` (`None` when the field is absent or not a string).
pub fn capability_for(tool: &str, action: Option<&str>) -> (r: String)
    ensures
        r@ == capability_for_spec(tool@, opt_str_view(action)),
{
    if !is_compound_tool(tool) {
        return owned(tool);
    }
    match action {
        None => owned(tool),
        Some(a) => match action_capability(tool, a) {
            Some(id) => id,
            None => owned(tool),
        },
    }
}

/// Resolve the canonical privacy-matrix capability identity for a tool call.
///
/// For standalone tools this is the bare tool name. For compound tools it is the
/// dot-qualified `tool.action` identity that the privacy matrix is keyed on. When
/// a compound tool is called without a recognizable `action`, the bare tool name
/// is returned (fail closed).
pub fn canonical_capability(tool: &str, args: &serde_json::Value) -> (r: String)
    ensures
        r@ == capability_for_spec(tool@, json_value_string(*args, "action"@)),
        !compound_tool(tool@) ==> r@ == tool@,
{
    if !is_compound_tool(tool) {
        return owned(tool);
    }
    let field = json_str_field(args, "action");
    match &field {
        Some(a) => capability_for(tool, Some(a.as_str())),
        None => capability_for(tool, None),
    }
}

// ---------------------------------------------------------------------------
// Laws
// ---------------------------------------------------------------------------

/// Fail closed: whatever action is supplied, the identity checked for a call of
/// `tool` is either the bare tool name or a `tool.`-qualified identity of that
/// same compound tool, so no call can be authorized under another tool's name.
pub proof fn capability_stays_within_tool(tool: Seq<char>, action: Option<Seq<char>>)
    ensures
        capability_for_spec(tool, action) == tool || (compound_tool(tool) && starts_with_tool(
            capability_for_spec(tool, action),
            tool,
        )),
{
    let r = capability_for_spec(tool, action);
    reveal_strlit(".");
    if r != tool {
        let a = action->Some_0;
        if tool == "inspect"@ {
            reveal_strlit("inspect");
            reveal_strlit("inspect.styles");
            reveal_strlit("inspect.bounds");
            reveal_strlit("inspect.highlight");
            reveal_strlit("inspect.clear_highlights");
            reveal_strlit("inspect.audit_a11y");
            reveal_strlit("inspect.performance");
            assert(r.subrange(0, tool.len() + 1int) =~= tool + "."@);
        } else {
            assert(r == dotted(tool, a));
            assert(r.subrange(0, tool.len() + 1int) =~= tool + "."@);
        }
    }
}

/// `id` begins with `tool` followed by a dot.
pub open spec fn starts_with_tool(id: Seq<char>, tool: Seq<char>) -> bool {
    tool.len() + 1 <= id.len() && id.subrange(0, tool.len() + 1int) == tool + "."@
}

/// A tool that is not compound is always checked under its bare name, whatever
/// its arguments hold.
pub proof fn standalone_tools_use_bare_name_law(tool: Seq<char>, action: Option<Seq<char>>)
    requires
        !compound_tool(tool),
    ensures
        capability_for_spec(tool, action) == tool,
{
}

/// A compound tool called with no action, or an action it does not know, is
/// checked under its bare name.
pub proof fn unknown_action_fails_closed(tool: Seq<char>, action: Option<Seq<char>>)
    requires
        action is None || capability_id(tool, action->Some_0) is None,
    ensures
        capability_for_spec(tool, action) == tool,
{
}

/// Every inspect identity of the privacy matrix is reached by exactly one
/// `inspect` action: `inspect.styles`, `inspect.bounds`, `inspect.highlight`,
/// `inspect.clear_highlights`, `inspect.audit_a11y` and `inspect.performance`
/// are each the identity checked for some action, and for no other.
pub proof fn each_inspect_identity_has_one_action(id: Seq<char>)
    requires
        id == "inspect.styles"@ || id == "inspect.bounds"@ || id == "inspect.highlight"@ || id
            == "inspect.clear_highlights"@ || id == "inspect.audit_a11y"@ || id == "inspect.performance"@,
    ensures
        exists|a: Seq<char>| #[trigger] capability_for_spec("inspect"@, Some(a)) == id,
        forall|a: Seq<char>, b: Seq<char>|
            #[trigger] capability_for_spec("inspect"@, Some(a)) == id && #[trigger] capability_for_spec(
                "inspect"@,
                Some(b),
            ) == id ==> a == b,
{
    reveal_strlit("inspect");
    reveal_strlit("inspect.styles");
    reveal_strlit("inspect.bounds");
    reveal_strlit("inspect.highlight");
    reveal_strlit("inspect.clear_highlights");
    reveal_strlit("inspect.audit_a11y");
    reveal_strlit("inspect.performance");
    reveal_strlit("get_styles");
    reveal_strlit("get_bounding_boxes");
    reveal_strlit("highlight");
    reveal_strlit("clear_highlights");
    reveal_strlit("audit_accessibility");
    reveal_strlit("get_performance");
    let t = "inspect"@;
    assert(compound_tool(t));
    let acts = seq!["get_styles"@, "get_bounding_boxes"@, "highlight"@, "clear_highlights"@,
        "audit_accessibility"@, "get_performance"@];
    let ids = seq!["inspect.styles"@, "inspect.bounds"@, "inspect.highlight"@,
        "inspect.clear_highlights"@, "inspect.audit_a11y"@, "inspect.performance"@];
    assert(acts[0].len() == 10 && acts[1].len() == 18 && acts[2].len() == 9 && acts[3].len() == 16
        && acts[4].len() == 19 && acts[5].len() == 15);
    assert(ids[0].len() == 14 && ids[1].len() == 14 && ids[2].len() == 17 && ids[3].len() == 24
        && ids[4].len() == 18 && ids[5].len() == 19);
    assert(ids[0][8] != ids[1][8]);
    assert(ids[5][8] != ids[2][8]);
    assert(ids[4][8] != ids[2][8]);
    assert(ids[4][8] != ids[5][8]);
    assert forall|k: int| 0 <= k < 6 implies #[trigger] inspect_identity(acts[k]) == Some(ids[k]) by {}
    assert(id == ids[0] || id == ids[1] || id == ids[2] || id == ids[3] || id == ids[4] || id == ids[5]);
    let k: int = choose|k: int| 0 <= k < 6 && ids[k] == id;
    assert(inspect_identity(acts[k]) == Some(ids[k]));
    assert(capability_for_spec(t, Some(acts[k])) == id);
    assert forall|x: Seq<char>, y: Seq<char>|
        #[trigger] capability_for_spec(t, Some(x)) == id && #[trigger] capability_for_spec(t, Some(y)) == id
        implies x == y by {
        assert(id.len() != t.len());
        assert(inspect_identity(x) == Some(id));
        assert(inspect_identity(y) == Some(id));
    }
}
} // verus!
