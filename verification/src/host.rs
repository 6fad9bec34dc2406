//! Decisions of the browser native-messaging host: which command-line
//! command runs, which port it serves on, and what each message from the
//! browser extension asks of it.
use vstd::prelude::*;

use crate::discovery::parse_port;
use crate::text::{opt_string_view, owned, parse_unsigned, str_eq};

verus! {

/// The port the host serves on when none is configured.
pub const DEFAULT_PORT: u16 = 7474;

/// How many ports above the preferred one the host tries.
pub const PORT_RANGE: u16 = 10;

/// What the host was asked to do on its command line.
#[derive(Debug, Clone, PartialEq, Eq)]
pub enum HostCommand {
    /// Register the native-messaging host for an extension id.
    Install { extension_id: String },
    /// Unregister the native-messaging host.
    Uninstall,
    /// Print the version.
    Version,
    /// Serve MCP over HTTP and native messaging on stdio.
    Serve,
}

/// The command word: the first argument after the program name, `serve` by default.
pub open spec fn command_word(args: Seq<String>) -> Seq<char> {
    if args.len() > 1 {
        args[1]@
    } else {
        "serve"@
    }
}

/// The extension id given to `install`: the second argument, else a placeholder id.
pub open spec fn extension_id_arg(args: Seq<String>) -> Seq<char> {
    if args.len() > 2 {
        args[2]@
    } else {
        "EXTENSION_ID"@
    }
}

/// The command of a host invocation with arguments `args` (program name first).
pub fn host_command(args: &[String]) -> (r: HostCommand)
    ensures
        command_word(args@) == "install"@ ==> (r matches HostCommand::Install { extension_id }
            && extension_id@ == extension_id_arg(args@)),
        command_word(args@) == "uninstall"@ ==> r == HostCommand::Uninstall,
        command_word(args@) == "version"@ ==> r == HostCommand::Version,
        command_word(args@) != "install"@ && command_word(args@) != "uninstall"@ && command_word(args@)
            != "version"@ ==> r == HostCommand::Serve,
{
    let command: &str = if args.len() > 1 {
        args[1].as_str()
    } else {
        "serve"
    };
    proof {
        reveal_strlit("serve");
        reveal_strlit("install");
        reveal_strlit("uninstall");
        reveal_strlit("version");
        assert("uninstall"@.len() != "install"@.len());
        assert("version"@ != "install"@) by {
            if "version"@ == "install"@ {
                assert("version"@[0] == "install"@[0]);
            }
        }
        assert("version"@.len() != "uninstall"@.len());
    }
    if str_eq(command, "install") {
        let extension_id = if args.len() > 2 {
            args[2].clone()
        } else {
            owned("EXTENSION_ID")
        };
        proof {
            if args.len() > 2 {
                assert(extension_id@ == args@[2]@);
            }
        }
        HostCommand::Install { extension_id }
    } else if str_eq(command, "uninstall") {
        HostCommand::Uninstall
    } else if str_eq(command, "version") {
        HostCommand::Version
    } else {
        HostCommand::Serve
    }
}

/// The port to serve on: the configured value when it parses as a port,
/// else `DEFAULT_PORT`.
pub fn host_port(configured: Option<&str>) -> (r: u16)
    ensures
        r == match configured {
            Some(s) => match parse_unsigned(s@, u16::MAX as nat) {
                Some(p) => p as u16,
                None => DEFAULT_PORT,
            },
            None => DEFAULT_PORT,
        },
{
    match configured {
        Some(s) => match parse_port(s) {
            Some(p) => p,
            None => DEFAULT_PORT,
        },
        None => DEFAULT_PORT,
    }
}

/// The fields of a message from the extension that the host reads.
#[derive(Debug, Clone)]
pub struct NativeMessage {
    /// `type`, when it is a string.
    pub kind: Option<String>,
    /// `id`, when it is a string.
    pub id: Option<String>,
    /// `tab_id`, when it is an unsigned integer.
    pub tab_id: Option<u64>,
    /// `url`, when it is a string.
    pub url: Option<String>,
    /// `title`, when it is a string.
    pub title: Option<String>,
    /// `error`, when it is a string.
    pub error: Option<String>,
}

/// What a message from the extension asks of the host.
#[derive(Debug, Clone, PartialEq, Eq)]
pub enum NativeEvent {
    /// A reply to the request `id` (empty when absent), possibly an error.
    Response { id: String, error: Option<String> },
    /// A tab was created.
    TabCreated { tab_id: u32, url: String, title: String },
    /// A tab was closed.
    TabClosed { tab_id: u32 },
    /// A tab became active.
    TabActivated { tab_id: u32 },
    /// A tab's url or title changed.
    TabUpdated { tab_id: u32, url: Option<String>, title: Option<String> },
    /// The page bridge is ready in a tab.
    BridgeReady { tab_id: u32 },
    /// A known message without the fields it needs: nothing to do.
    Incomplete,
    /// A message of an unknown type: nothing to do.
    Unknown,
}

/// A tab id as the host keeps it: the low 32 bits of the number sent.
pub open spec fn tab_of(v: u64) -> u32 {
    (v % 0x1_0000_0000) as u32
}

/// The message's type (empty when absent).
pub open spec fn kind_of(m: NativeMessage) -> Seq<char> {
    match m.kind {
        Some(k) => k@,
        None => Seq::empty(),
    }
}

/// What message `m` asks of the host.
pub open spec fn native_event_of(m: NativeMessage, r: NativeEvent) -> bool {
    let k = kind_of(m);
    if k == "response"@ {
        r matches NativeEvent::Response { id, error } && id@ == (match m.id {
            Some(i) => i@,
            None => Seq::empty(),
        }) && error == m.error
    } else if k == "tab_created"@ {
        match (m.tab_id, m.url, m.title) {
            (Some(t), Some(u), Some(ti)) => r == NativeEvent::TabCreated { tab_id: tab_of(t), url: u, title: ti },
            _ => r == NativeEvent::Incomplete,
        }
    } else if k == "tab_closed"@ || k == "tab_activated"@ || k == "bridge_ready"@ || k == "tab_updated"@ {
        match m.tab_id {
            Some(t) => if k == "tab_closed"@ {
                r == NativeEvent::TabClosed { tab_id: tab_of(t) }
            } else if k == "tab_activated"@ {
                r == NativeEvent::TabActivated { tab_id: tab_of(t) }
            } else if k == "bridge_ready"@ {
                r == NativeEvent::BridgeReady { tab_id: tab_of(t) }
            } else {
                r == NativeEvent::TabUpdated { tab_id: tab_of(t), url: m.url, title: m.title }
            },
            None => r == NativeEvent::Incomplete,
        }
    } else {
        r == NativeEvent::Unknown
    }
}

/// A `tab_updated` message with a tab id is decoded to a tab update that
/// carries the message's own url and title unchanged (absent ones stay
/// absent), for the tab whose id is the low 32 bits of the one sent.
pub proof fn tab_updates_carry_the_message_fields(m: NativeMessage, r: NativeEvent)
    requires
        native_event_of(m, r),
        kind_of(m) == "tab_updated"@,
        m.tab_id is Some,
    ensures
        r matches NativeEvent::TabUpdated { tab_id, url, title } && tab_id as int == m.tab_id->Some_0
            % 0x1_0000_0000 && url == m.url && title == m.title,
{
    reveal_strlit("response");
    reveal_strlit("tab_created");
    reveal_strlit("tab_closed");
    reveal_strlit("tab_activated");
    reveal_strlit("tab_updated");
    reveal_strlit("bridge_ready");
    assert("tab_updated"@[0] != "response"@[0]);
    assert("tab_updated"@[4] != "tab_created"@[4]);
    assert("tab_updated"@[4] != "tab_closed"@[4]);
    assert("tab_updated"@ != "tab_activated"@);
    assert("tab_updated"@ != "bridge_ready"@);
}

/// A complete `tab_created` message is decoded to a tab creation that
/// carries the message's own url and title.
pub proof fn tab_creations_carry_the_message_fields(m: NativeMessage, r: NativeEvent)
    requires
        native_event_of(m, r),
        kind_of(m) == "tab_created"@,
        m.tab_id is Some && m.url is Some && m.title is Some,
    ensures
        r matches NativeEvent::TabCreated { tab_id, url, title } && tab_id as int == m.tab_id->Some_0
            % 0x1_0000_0000 && url == m.url->Some_0 && title == m.title->Some_0,
{
    reveal_strlit("response");
    reveal_strlit("tab_created");
    assert("tab_created"@[0] != "response"@[0]);
}

fn tab_id_from(v: u64) -> (r: u32)
    ensures
        r == tab_of(v),
{
    (v % 0x1_0000_0000) as u32
}

/// What a message from the extension asks of the host.
pub fn native_event(m: NativeMessage) -> (r: NativeEvent)
    ensures
        native_event_of(m, r),
{
    let ghost orig = m;
    let kind: String = match &m.kind {
        Some(k) => k.clone(),
        None => String::new(),
    };
    assert(kind@ == kind_of(orig));
    let k = kind.as_str();
    proof {
        reveal_strlit("response");
        reveal_strlit("tab_created");
        reveal_strlit("tab_closed");
        reveal_strlit("tab_activated");
        reveal_strlit("tab_updated");
        reveal_strlit("bridge_ready");
    }
    if str_eq(k, "response") {
        let id = match m.id {
            Some(i) => i,
            None => String::new(),
        };
        NativeEvent::Response { id, error: m.error }
    } else if str_eq(k, "tab_created") {
        match (m.tab_id, m.url, m.title) {
            (Some(t), Some(u), Some(ti)) => NativeEvent::TabCreated { tab_id: tab_id_from(t), url: u, title: ti },
            _ => NativeEvent::Incomplete,
        }
    } else if str_eq(k, "tab_closed") {
        match m.tab_id {
            Some(t) => NativeEvent::TabClosed { tab_id: tab_id_from(t) },
            None => NativeEvent::Incomplete,
        }
    } else if str_eq(k, "tab_activated") {
        match m.tab_id {
            Some(t) => NativeEvent::TabActivated { tab_id: tab_id_from(t) },
            None => NativeEvent::Incomplete,
        }
    } else if str_eq(k, "tab_updated") {
        match m.tab_id {
            Some(t) => NativeEvent::TabUpdated { tab_id: tab_id_from(t), url: m.url, title: m.title },
            None => NativeEvent::Incomplete,
        }
    } else if str_eq(k, "bridge_ready") {
        match m.tab_id {
            Some(t) => NativeEvent::BridgeReady { tab_id: tab_id_from(t) },
            None => NativeEvent::Incomplete,
        }
    } else {
        NativeEvent::Unknown
    }
}

} // verus!
