//! Server discovery: parsing the per-process discovery entries that Victauri
//! servers write under `<temp>/victauri/<pid>/`, deciding which directories to
//! trust, and selecting the backend to talk to by app identity.
use vstd::prelude::*;

use crate::text::{
    ascii_lower, ascii_lowercase, chars_of, chars_eq, contains_chars, decimal, decimal_string,
    has_substring, opt_string_view, owned, parse_unsigned, parse_unsigned_chars, trim,
    trim_chars, trim_str, string_of, split_words, char_views, words, occurs_at,
};

verus! {

// ---------------------------------------------------------------------------
// Servers and their labels
// ---------------------------------------------------------------------------

/// A discovered, live Victauri backend.
#[derive(Clone, Debug)]
pub struct ServerInfo {
    /// The port the backend listens on.
    pub port: u16,
    /// The Bearer token written for it, if auth is on.
    pub token: Option<String>,
    /// The Tauri bundle identifier of the app.
    pub identifier: Option<String>,
    /// The product name of the app.
    pub product_name: Option<String>,
}

/// A copy of an optional string.
pub fn copy_opt_string(o: &Option<String>) -> (r: Option<String>)
    ensures
        r == *o,
{
    match o {
        Some(s) => Some(s.clone()),
        None => None,
    }
}

impl ServerInfo {
    /// A field-for-field copy.
    pub fn duplicate(&self) -> (r: ServerInfo)
        ensures
            r == *self,
    {
        ServerInfo {
            port: self.port,
            token: copy_opt_string(&self.token),
            identifier: copy_opt_string(&self.identifier),
            product_name: copy_opt_string(&self.product_name),
        }
    }

    /// The name shown for a server: its identifier, else its product name,
    /// else `<unknown app>`.
    pub open spec fn display_name(self) -> Seq<char> {
        match self.identifier {
            Some(i) => i@,
            None => match self.product_name {
                Some(p) => p@,
                None => "<unknown app>"@,
            },
        }
    }

    /// `<name> (port <port>)`.
    pub open spec fn label_spec(self) -> Seq<char> {
        self.display_name() + " (port "@ + decimal(self.port as nat) + ")"@
    }

    /// A human-readable label: `<identifier or product name> (port <port>)`.
    pub fn label(&self) -> (r: String)
        ensures
            r@ == self.label_spec(),
    {
        let mut r = match &self.identifier {
            Some(i) => i.clone(),
            None => match &self.product_name {
                Some(p) => p.clone(),
                None => owned("<unknown app>"),
            },
        };
        r.append(" (port ");
        let digits = decimal_string(self.port as u64);
        r.append(digits.as_str());
        r.append(")");
        r
    }
}

// ---------------------------------------------------------------------------
// Selection by app identity
// ---------------------------------------------------------------------------

/// The result of choosing a backend among the live ones.
#[derive(Debug)]
pub enum Selection {
    /// Exactly this backend.
    One(ServerInfo),
    /// No backend matches (none runs, or none matches the selector).
    NoMatch,
    /// Several backends run and none was named; their labels.
    Ambiguous(Vec<String>),
}

/// The ASCII-lowered characters of an optional string.
pub open spec fn lowered(o: Option<String>) -> Option<Seq<char>> {
    match o {
        Some(s) => Some(ascii_lower(s@)),
        None => None,
    }
}

/// `s` matches the lowered selector `needle`: exactly (`exact`) or as a
/// substring, on its identifier or its product name.
pub open spec fn hits(s: ServerInfo, needle: Seq<char>, exact: bool) -> bool {
    let id = lowered(s.identifier);
    let name = lowered(s.product_name);
    if exact {
        id == Some(needle) || name == Some(needle)
    } else {
        (id is Some && has_substring(id->Some_0, needle)) || (name is Some && has_substring(
            name->Some_0,
            needle,
        ))
    }
}

/// Some server of `live` matches.
pub open spec fn any_hit(live: Seq<ServerInfo>, needle: Seq<char>, exact: bool) -> bool {
    exists|i: int| 0 <= i < live.len() && #[trigger] hits(live[i], needle, exact)
}

/// `i` is the first server of `live` that matches.
pub open spec fn first_hit(live: Seq<ServerInfo>, needle: Seq<char>, exact: bool, i: int) -> bool {
    &&& 0 <= i < live.len()
    &&& hits(live[i], needle, exact)
    &&& forall|j: int| 0 <= j < i ==> !#[trigger] hits(live[j], needle, exact)
}

/// What `select` chooses: with a selector, the first exact identity match,
/// else the first substring match, else nothing; without one, the sole live
/// server, nothing when none runs, or all their labels when several run.
pub open spec fn selection_ok(live: Seq<ServerInfo>, app: Option<Seq<char>>, r: Selection) -> bool {
    match app {
        Some(a) => {
            let n = ascii_lower(a);
            if any_hit(live, n, true) {
                exists|i: int| first_hit(live, n, true, i) && r == Selection::One(live[i])
            } else if any_hit(live, n, false) {
                exists|i: int| first_hit(live, n, false, i) && r == Selection::One(live[i])
            } else {
                r is NoMatch
            }
        },
        None => {
            if live.len() == 0 {
                r is NoMatch
            } else if live.len() == 1 {
                r == Selection::One(live[0])
            } else {
                match r {
                    Selection::Ambiguous(labels) => {
                        &&& labels@.len() == live.len()
                        &&& forall|i: int|
                            0 <= i < live.len() ==> (#[trigger] labels@[i])@ == live[i].label_spec()
                    },
                    _ => false,
                }
            }
        },
    }
}

fn lowered_chars(o: &Option<String>) -> (r: Option<Vec<char>>)
    ensures
        match r {
            Some(v) => lowered(*o) == Some(v@),
            None => o is None,
        },
{
    match o {
        Some(s) => Some(ascii_lowercase(chars_of(s.as_str()).as_slice())),
        None => None,
    }
}

fn hits_exec(s: &ServerInfo, needle: &[char], exact: bool) -> (r: bool)
    ensures
        r == hits(*s, needle@, exact),
{
    let id = lowered_chars(&s.identifier);
    let name = lowered_chars(&s.product_name);
    let id_hit = match &id {
        Some(v) => if exact {
            chars_eq(v.as_slice(), needle)
        } else {
            contains_chars(v.as_slice(), needle)
        },
        None => false,
    };
    let name_hit = match &name {
        Some(v) => if exact {
            chars_eq(v.as_slice(), needle)
        } else {
            contains_chars(v.as_slice(), needle)
        },
        None => false,
    };
    id_hit || name_hit
}

fn first_hit_exec(live: &[ServerInfo], needle: &[char], exact: bool) -> (r: Option<usize>)
    ensures
        match r {
            Some(i) => first_hit(live@, needle@, exact, i as int),
            None => !any_hit(live@, needle@, exact),
        },
{
    let mut i: usize = 0;
    while i < live.len()
        invariant
            i <= live.len(),
            forall|j: int| 0 <= j < i ==> !#[trigger] hits(live@[j], needle@, exact),
        decreases live.len() - i,
    {
        if hits_exec(&live[i], needle, exact) {
            return Some(i);
        }
        i = i + 1;
    }
    None
}

/// Pick the server matching `app`, or the sole running server.
pub fn select(live: &[ServerInfo], app: Option<&str>) -> (r: Selection)
    ensures
        selection_ok(live@, crate::text::opt_str_view(app), r),
{
    if live.len() == 0 {
        return Selection::NoMatch;
    }
    match app {
        Some(a) => {
            let needle = ascii_lowercase(chars_of(a).as_slice());
            match first_hit_exec(live, needle.as_slice(), true) {
                Some(i) => {
                    return Selection::One(live[i].duplicate());
                },
                None => {},
            }
            match first_hit_exec(live, needle.as_slice(), false) {
                Some(i) => Selection::One(live[i].duplicate()),
                None => Selection::NoMatch,
            }
        },
        None => {
            if live.len() == 1 {
                Selection::One(live[0].duplicate())
            } else {
                let mut labels: Vec<String> = Vec::new();
                let mut i: usize = 0;
                while i < live.len()
                    invariant
                        i <= live.len(),
                        labels@.len() == i,
                        forall|j: int| 0 <= j < i ==> (#[trigger] labels@[j])@ == live@[j].label_spec(),
                    decreases live.len() - i,
                {
                    labels.push(live[i].label());
                    i = i + 1;
                }
                Selection::Ambiguous(labels)
            }
        },
    }
}

/// The selector found inside an identifier or product name, case folded.
pub open spec fn names_contain(s: ServerInfo, n: Seq<char>) -> bool {
    ||| (s.identifier matches Some(x) && has_substring(ascii_lower(x@), n))
    ||| (s.product_name matches Some(x) && has_substring(ascii_lower(x@), n))
}

/// The selector is, case folded, exactly the identifier or product name.
pub open spec fn names_equal(s: ServerInfo, n: Seq<char>) -> bool {
    ||| (s.identifier matches Some(x) && ascii_lower(x@) == n)
    ||| (s.product_name matches Some(x) && ascii_lower(x@) == n)
}

/// With no exact match, a selector found inside a server's product name
/// picks that server when no earlier server holds the selector in its
/// identifier or product name.
pub proof fn product_name_substring_selects(live: Seq<ServerInfo>, a: Seq<char>, r: Selection, i: int)
    requires
        selection_ok(live, Some(a), r),
        0 <= i < live.len(),
        live[i].product_name matches Some(p) && has_substring(ascii_lower(p@), ascii_lower(a)),
        forall|j: int| 0 <= j < live.len() ==> !names_equal(#[trigger] live[j], ascii_lower(a)),
        forall|j: int| 0 <= j < i ==> !names_contain(#[trigger] live[j], ascii_lower(a)),
    ensures
        r == Selection::One(live[i]),
{
    let n = ascii_lower(a);
    assert forall|j: int| 0 <= j < live.len() implies !#[trigger] hits(live[j], n, true) by {
        assert(!names_equal(live[j], n));
    }
    assert(hits(live[i], n, false));
    assert(any_hit(live, n, false));
    let k = choose|k: int| first_hit(live, n, false, k) && r == Selection::One(live[k]);
    if k < i {
        assert(!names_contain(live[k], n));
        assert(hits(live[k], n, false));
    } else if k > i {
        assert(!hits(live[i], n, false));
    }
}

/// A selector is answered "no match" only when no live server holds it,
/// case folded, in its identifier or product name.
pub proof fn no_match_means_no_server_named(live: Seq<ServerInfo>, a: Seq<char>, j: int)
    requires
        selection_ok(live, Some(a), Selection::NoMatch),
        0 <= j < live.len(),
    ensures
        !names_contain(live[j], ascii_lower(a)),
{
    let n = ascii_lower(a);
    assert(!hits(live[j], n, false));
}

// ---------------------------------------------------------------------------
// Tokens
// ---------------------------------------------------------------------------

/// The token of the first server listening on `port` (`None` when there is no
/// such server or it has no token). A token is never taken from another port.
pub fn token_for_port(servers: &[ServerInfo], port: u16) -> (r: Option<String>)
    ensures
        match r {
            Some(t) => exists|i: int|
                0 <= i < servers@.len() && servers@[i].port == port && servers@[i].token == Some(t)
                    && forall|j: int| 0 <= j < i ==> (#[trigger] servers@[j]).port != port,
            None => forall|i: int|
                0 <= i < servers@.len() && (#[trigger] servers@[i]).port == port ==> (
                servers@[i].token is None || exists|j: int|
                    0 <= j < i && (#[trigger] servers@[j]).port == port),
        },
{
    let mut i: usize = 0;
    while i < servers.len()
        invariant
            i <= servers.len(),
            forall|j: int| 0 <= j < i ==> (#[trigger] servers@[j]).port != port,
        decreases servers.len() - i,
    {
        if servers[i].port == port {
            return copy_opt_string(&servers[i].token);
        }
        i = i + 1;
    }
    None
}

/// A token value after trimming, or `None` when nothing but whitespace is left.
pub open spec fn normalized_token(raw: Option<Seq<char>>) -> Option<Seq<char>> {
    match raw {
        Some(t) => if trim(t).len() > 0 {
            Some(trim(t))
        } else {
            None
        },
        None => None,
    }
}

/// Normalize a configured token value: an empty or whitespace-only token is
/// "not configured" (`None`), never an empty Bearer header; surrounding
/// whitespace is trimmed.
pub fn normalize_env_token(raw: Option<String>) -> (r: Option<String>)
    ensures
        opt_string_view(r) == normalized_token(opt_string_view(raw)),
{
    match raw {
        Some(t) => {
            let trimmed = trim_str(t.as_str());
            if trimmed.as_str().is_empty() {
                None
            } else {
                Some(trimmed)
            }
        },
        None => None,
    }
}

// ---------------------------------------------------------------------------
// Discovery files
// ---------------------------------------------------------------------------

/// The port recorded in a `port` file: its trimmed text parsed as a `u16`.
pub open spec fn port_of_text(text: Seq<char>) -> Option<nat> {
    parse_unsigned(trim(text), 65535)
}

/// Parses the contents of a discovery `port` file.
pub fn parse_port_text(text: &str) -> (r: Option<u16>)
    ensures
        match r {
            Some(p) => port_of_text(text@) == Some(p as nat),
            None => port_of_text(text@) is None,
        },
{
    let t = trim_chars(chars_of(text).as_slice());
    match parse_unsigned_chars(t.as_slice(), 65535) {
        Some(v) => Some(v as u16),
        None => None,
    }
}

/// What a writer records in a `port` file (the port in decimal) reads back
/// as that port.
pub proof fn port_file_round_trip(port: u16)
    ensures
        port_of_text(decimal(port as nat)) == Some(port as nat),
{
    crate::text::decimal_parses_back(port as nat, 65535);
}

/// A token written without surrounding whitespace reads back unchanged from
/// its file, and so does a configured token.
pub proof fn token_file_round_trip(token: Seq<char>)
    requires
        token.len() > 0,
        trim(token) == token,
    ensures
        normalized_token(Some(token)) == Some(token),
{
}

/// Normalizing a token twice is normalizing it once.
pub proof fn normalizing_is_idempotent(raw: Option<Seq<char>>)
    ensures
        normalized_token(normalized_token(raw)) == normalized_token(raw),
{
    match raw {
        Some(t) => {
            if trim(t).len() > 0 {
                crate::text::lemma_trim_idempotent(t);
            }
        },
        None => {},
    }
}

/// The app identity recorded in a discovery `metadata.json`: its
/// `identifier` and `product_name` strings. An unreadable file or text that
/// is not JSON records neither.
pub fn identity_from_metadata(contents: Option<String>) -> (r: (Option<String>, Option<String>))
    ensures
        opt_string_view(r.0) == match contents {
            Some(t) => crate::json::json_text_field(t@, "identifier"@),
            None => None,
        },
        opt_string_view(r.1) == match contents {
            Some(t) => crate::json::json_text_field(t@, "product_name"@),
            None => None,
        },
        (contents is None || !crate::json::json_text_valid(contents->Some_0@)) ==> r.0 is None && r.1 is None,
{
    match contents {
        Some(text) => {
            let identifier = crate::json::json_field_in_text(text.as_str(), "identifier");
            let product_name = crate::json::json_field_in_text(text.as_str(), "product_name");
            (identifier, product_name)
        },
        None => (None, None),
    }
}

/// Parses a discovery directory name as a process id (`u32`).
pub fn parse_pid(name: &str) -> (r: Option<u32>)
    ensures
        match r {
            Some(p) => parse_unsigned(name@, u32::MAX as nat) == Some(p as nat),
            None => parse_unsigned(name@, u32::MAX as nat) is None,
        },
{
    match parse_unsigned_chars(chars_of(name).as_slice(), 0xFFFF_FFFF) {
        Some(v) => Some(v as u32),
        None => None,
    }
}

/// The token in a `token` file that could be read: trimmed, and dropped when
/// empty.
pub fn token_from_file(contents: Option<String>) -> (r: Option<String>)
    ensures
        opt_string_view(r) == normalized_token(opt_string_view(contents)),
{
    normalize_env_token(contents)
}

/// Whether a discovery directory may be trusted: it must be a real directory
/// (not a symlink), owned by the current effective user (`None` when that
/// user could not be established), and not group- or other-writable.
pub open spec fn trusted_dir(is_dir: bool, owner_uid: u32, euid: Option<u32>, mode: u32) -> bool {
    is_dir && euid == Some(owner_uid) && mode & 0o022 == 0
}

/// Decides whether a discovery directory is trusted, from its metadata.
pub fn dir_is_trusted(is_dir: bool, owner_uid: u32, euid: Option<u32>, mode: u32) -> (r: bool)
    ensures
        r == trusted_dir(is_dir, owner_uid, euid, mode),
{
    if !is_dir {
        return false;
    }
    match euid {
        Some(e) => owner_uid == e && mode & 0o022 == 0,
        None => false,
    }
}

/// A live server found by scanning the discovery directories.
#[derive(Clone, Debug)]
pub struct DiscoveredServer {
    /// Its port.
    pub port: u16,
    /// Its token, if one was written.
    pub token: Option<String>,
}

/// The port of the live server, when exactly one was found; `None` when none
/// or several were (ambiguous).
pub fn scan_discovery_dirs_for_port(servers: &[DiscoveredServer]) -> (r: Option<u16>)
    ensures
        r == (if servers@.len() == 1 {
            Some(servers@[0].port)
        } else {
            None
        }),
{
    if servers.len() == 1 {
        return Some(servers[0].port);
    }
    None
}

/// The token of the live server, when exactly one was found and it has one.
pub fn scan_discovery_dirs_for_token(servers: &[DiscoveredServer]) -> (r: Option<String>)
    ensures
        r == (if servers@.len() == 1 {
            servers@[0].token
        } else {
            None
        }),
{
    if servers.len() == 1 {
        return copy_opt_string(&servers[0].token);
    }
    None
}


/// The single-server token lookup never hands out an empty or padded token:
/// when every live server's token was read with `token_from_file`, a token
/// found for the sole live server is non-empty and has no surrounding
/// whitespace.
pub proof fn single_server_token_is_trimmed(
    servers: Seq<DiscoveredServer>,
    files: Seq<Option<Seq<char>>>,
)
    requires
        files.len() == servers.len(),
        forall|i: int|
            0 <= i < servers.len() ==> opt_string_view(#[trigger] servers[i].token)
                == normalized_token(files[i]),
    ensures
        servers.len() == 1 ==> match servers[0].token {
            Some(t) => t@.len() > 0 && trim(t@) == t@,
            None => true,
        },
{
    if servers.len() == 1 {
        if let Some(t) = servers[0].token {
            assert(opt_string_view(servers[0].token) == normalized_token(files[0]));
            let raw = files[0]->Some_0;
            crate::text::lemma_trim_idempotent(raw);
        }
    }
}

// ---------------------------------------------------------------------------
// Live processes
// ---------------------------------------------------------------------------

/// The process ids among whitespace-separated words: each word that parses
/// as a `u32`, in order.
pub open spec fn parsed_pids(ws: Seq<Seq<char>>) -> Seq<u32>
    decreases ws.len(),
{
    if ws.len() == 0 {
        seq![]
    } else {
        match parse_unsigned(ws.last(), u32::MAX as nat) {
            Some(v) => parsed_pids(ws.drop_last()).push(v as u32),
            None => parsed_pids(ws.drop_last()),
        }
    }
}

/// The live process ids listed by `ps -A -o pid=`: every whitespace-separated
/// word that parses as a `u32`; `None` when there is none.
pub fn pids_from_ps(text: &str) -> (r: Option<Vec<u32>>)
    ensures
        match r {
            Some(v) => v@ == parsed_pids(words(text@)) && v@.len() > 0,
            None => parsed_pids(words(text@)).len() == 0,
        },
{
    let ws = split_words(chars_of(text).as_slice());
    let ghost wv = char_views(ws@);
    let mut out: Vec<u32> = Vec::new();
    let mut i: usize = 0;
    while i < ws.len()
        invariant
            i <= ws@.len(),
            wv == char_views(ws@),
            out@ == parsed_pids(wv.take(i as int)),
        decreases ws.len() - i,
    {
        let ghost t = wv.take(i + 1);
        assert(t.drop_last() =~= wv.take(i as int));
        assert(t.last() == ws@[i as int]@);
        match parse_unsigned_chars(ws[i].as_slice(), 0xFFFF_FFFF) {
            Some(v) => out.push(v as u32),
            None => {},
        }
        i = i + 1;
    }
    assert(wv.take(ws.len() as int) =~= wv);
    if out.len() == 0 {
        None
    } else {
        Some(out)
    }
}

/// Parses a port number exactly as `str::parse::<u16>` does (no trimming).
pub fn parse_port(text: &str) -> (r: Option<u16>)
    ensures
        match r {
            Some(p) => parse_unsigned(text@, u16::MAX as nat) == Some(p as nat),
            None => parse_unsigned(text@, u16::MAX as nat) is None,
        },
{
    match parse_unsigned_chars(chars_of(text).as_slice(), 0xFFFF) {
        Some(v) => Some(v as u16),
        None => None,
    }
}

/// The separator between the quoted fields of a `tasklist /FO CSV` row.
pub open spec fn csv_separator() -> Seq<char> {
    seq!['"', ',', '"']
}

/// The first index at or after `from` where `sep` occurs in `s`, or -1.
pub open spec fn find_from(s: Seq<char>, sep: Seq<char>, from: int) -> int
    decreases s.len() - from,
{
    if from < 0 || from >= s.len() {
        -1
    } else if occurs_at(s, sep, from) {
        from
    } else {
        find_from(s, sep, from + 1)
    }
}

/// The second field of a row split at `sep` (what `split(sep).nth(1)` yields).
pub open spec fn second_field(s: Seq<char>, sep: Seq<char>) -> Option<Seq<char>> {
    let a = find_from(s, sep, 0);
    if a < 0 {
        None
    } else {
        let b = find_from(s, sep, a + sep.len());
        Some(s.subrange(a + sep.len(), if b < 0 { s.len() as int } else { b }))
    }
}

/// `s` without its leading double quotes.
pub open spec fn strip_leading_quotes(s: Seq<char>) -> Seq<char>
    decreases s.len(),
{
    if s.len() > 0 && s[0] == '"' {
        strip_leading_quotes(s.drop_first())
    } else {
        s
    }
}

/// `s` without its trailing double quotes.
pub open spec fn strip_trailing_quotes(s: Seq<char>) -> Seq<char>
    decreases s.len(),
{
    if s.len() > 0 && s.last() == '"' {
        strip_trailing_quotes(s.drop_last())
    } else {
        s
    }
}

/// The process id in a `tasklist /FO CSV /NH` row: its second field, quotes
/// and whitespace around it removed, parsed as a `u32`.
pub open spec fn tasklist_pid(row: Seq<char>) -> Option<nat> {
    match second_field(row, csv_separator()) {
        Some(f) => parse_unsigned(trim(strip_trailing_quotes(strip_leading_quotes(f))), u32::MAX as nat),
        None => None,
    }
}

fn find_from_exec(s: &[char], sep: &[char], from: usize) -> (r: Option<usize>)
    requires
        sep@.len() > 0,
    ensures
        match r {
            Some(i) => find_from(s@, sep@, from as int) == i as int,
            None => find_from(s@, sep@, from as int) == -1,
        },
{
    let mut i = from;
    while i < s.len()
        invariant
            from <= i,
            find_from(s@, sep@, from as int) == find_from(s@, sep@, i as int),
        decreases s.len() - i,
    {
        if crate::text::occurs_at_exec(s, sep, i) {
            return Some(i);
        }
        i = i + 1;
    }
    None
}

/// The process id in one row of `tasklist /FO CSV /NH` output.
pub fn pid_from_tasklist_row(row: &str) -> (r: Option<u32>)
    ensures
        match r {
            Some(p) => tasklist_pid(row@) == Some(p as nat),
            None => tasklist_pid(row@) is None,
        },
{
    let cs = chars_of(row);
    let sep: Vec<char> = vec!['"', ',', '"'];
    assert(sep@ =~= csv_separator());
    let a = match find_from_exec(cs.as_slice(), sep.as_slice(), 0) {
        Some(a) => a,
        None => return None,
    };
    proof {
        lemma_find_from_bounds(cs@, sep@, 0);
    }
    assert(a + 3 <= cs.len());
    let start = a + 3;
    let end = match find_from_exec(cs.as_slice(), sep.as_slice(), start) {
        Some(b) => b,
        None => cs.len(),
    };
    let mut lo = start;
    let mut hi = end;
    assert(start <= end <= cs.len()) by {
        if find_from(cs@, sep@, start as int) >= 0 {
            lemma_find_from_bounds(cs@, sep@, start as int);
        }
    }
    let ghost field = cs@.subrange(start as int, end as int);
    assert(cs@.subrange(lo as int, hi as int) =~= field);
    while lo < hi && cs[lo] == '"'
        invariant
            start <= lo <= hi <= end <= cs@.len(),
            strip_leading_quotes(field) == strip_leading_quotes(cs@.subrange(lo as int, hi as int)),
        decreases hi - lo,
    {
        assert(cs@.subrange(lo as int, hi as int).drop_first() =~= cs@.subrange(lo + 1, hi as int));
        lo = lo + 1;
    }
    let ghost lead = cs@.subrange(lo as int, hi as int);
    assert(strip_leading_quotes(field) == lead);
    while hi > lo && cs[hi - 1] == '"'
        invariant
            lo <= hi <= end <= cs@.len(),
            strip_trailing_quotes(lead) == strip_trailing_quotes(cs@.subrange(lo as int, hi as int)),
        decreases hi - lo,
    {
        assert(cs@.subrange(lo as int, hi as int).drop_last() =~= cs@.subrange(lo as int, hi - 1));
        hi = hi - 1;
    }
    assert(strip_trailing_quotes(lead) == cs@.subrange(lo as int, hi as int));
    let inner = crate::text::slice_to_vec(cs.as_slice(), lo, hi);
    let t = trim_chars(inner.as_slice());
    match parse_unsigned_chars(t.as_slice(), 0xFFFF_FFFF) {
        Some(v) => Some(v as u32),
        None => None,
    }
}

proof fn lemma_find_from_bounds(s: Seq<char>, sep: Seq<char>, from: int)
    requires
        find_from(s, sep, from) >= 0,
    ensures
        from <= find_from(s, sep, from),
        find_from(s, sep, from) + sep.len() <= s.len(),
        occurs_at(s, sep, find_from(s, sep, from)),
    decreases s.len() - from,
{
    if from >= 0 && from < s.len() && !occurs_at(s, sep, from) {
        lemma_find_from_bounds(s, sep, from + 1);
    }
}
} // verus!
