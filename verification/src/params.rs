//! Parameters of the webview and window tools (`eval_js`, `snapshot`,
//! `screenshot`), and the snapshot output format.
use vstd::prelude::*;

verus! {

/// Parameters for the `eval_js` tool.
#[derive(Debug)]
pub struct EvalJsParams {
    /// JavaScript code to evaluate in the webview. Async expressions supported.
    pub code: String,
    /// Target webview label. If omitted, targets the first available webview.
    pub webview_label: Option<String>,
}

/// Output format for DOM snapshots.
#[derive(Debug, Clone, Copy, PartialEq, Eq, Structural)]
pub enum SnapshotFormat {
    /// Compact accessible text — far fewer tokens than JSON.
    Compact,
    /// Full JSON tree with all element attributes.
    Json,
}

/// The name of a snapshot format, as it is written on the wire.
pub open spec fn format_name(f: SnapshotFormat) -> Seq<char> {
    match f {
        SnapshotFormat::Compact => seq!['c', 'o', 'm', 'p', 'a', 'c', 't'],
        SnapshotFormat::Json => seq!['j', 's', 'o', 'n'],
    }
}

impl SnapshotFormat {
    /// The format's wire name: `compact` or `json`.
    pub fn name(&self) -> (r: &'static str)
        ensures
            r@ == format_name(*self),
    {
        match self {
            SnapshotFormat::Compact => {
                let s = "compact";
                proof {
                    reveal_strlit("compact");
                }
                s
            },
            SnapshotFormat::Json => {
                let s = "json";
                proof {
                    reveal_strlit("json");
                }
                s
            },
        }
    }
}

/// Parameters for the `snapshot` tool.
#[derive(Debug)]
pub struct SnapshotParams {
    /// Target webview label. If omitted, targets the first available webview.
    pub webview_label: Option<String>,
    /// Snapshot format: "compact" (default, accessible text) or "json" (full tree).
    pub format: Option<SnapshotFormat>,
}

/// Parameters for the `screenshot` tool.
#[derive(Debug)]
pub struct ScreenshotParams {
    /// Target window label. If omitted, captures the main/first visible window.
    pub window_label: Option<String>,
}

} // verus!
