//! Command registry with substring search and natural-language-to-command
//! resolution. Commands are kept in name order, one per name.
use vstd::prelude::*;

use crate::ranking::{
    category_words_add_to_score, compare_scores, hit_count, is_positive, lemma_score_order_transitive, lemma_score_trichotomy, opt_chars, ranked_score,
    score_above, score_lowered, score_positive, score_ties, Score,
};
use crate::text::{
    char_views, chars_of, contains_chars, has_substring, lowercase, lowercase_of, opt_string_view, owned,
    pieces, slice_to_vec, split_words, string_of, words,
};

verus! {

// ---------------------------------------------------------------------------
// Command metadata
// ---------------------------------------------------------------------------

/// Schema for a single argument of a registered command.
#[derive(Debug, Clone)]
pub struct CommandArg {
    /// Argument name as declared in the Rust function signature.
    pub name: String,
    /// Rust type name (e.g. "String", "`Option<u32>`").
    pub rust_type: String,
    /// Whether the argument must be provided (not `Option`).
    pub required: bool,
    /// Optional JSON Schema for the argument's expected shape.
    pub schema: Option<serde_json::Value>,
}

/// Metadata for a registered Tauri command, including intent and schema information.
#[derive(Debug, Clone)]
pub struct CommandInfo {
    /// Fully qualified command name (e.g. "`get_settings`").
    pub name: String,
    /// Plugin namespace, if the command belongs to a Tauri plugin.
    pub plugin: Option<String>,
    /// Human-readable description of what the command does.
    pub description: Option<String>,
    /// Ordered list of arguments the command accepts.
    pub args: Vec<CommandArg>,
    /// Rust return type as a string (e.g. "Result<Settings, Error>").
    pub return_type: Option<String>,
    /// Whether the command handler is async.
    pub is_async: bool,
    /// Natural-language intent phrase for NL-to-command resolution.
    pub intent: Option<String>,
    /// Grouping category (e.g. "settings", "counter").
    pub category: Option<String>,
    /// Example natural-language queries that should resolve to this command.
    pub examples: Vec<String>,
}

/// A copy of a JSON value (`Value::clone`); the contract claims the copy
/// equals the value copied.
#[verifier::external_body]
fn copy_json(v: &serde_json::Value) -> (r: serde_json::Value)
    ensures
        r == *v,
{
    v.clone()
}

fn copy_strings(v: &Vec<String>) -> (r: Vec<String>)
    ensures
        r@ == v@,
{
    let mut r: Vec<String> = Vec::new();
    let mut i: usize = 0;
    while i < v.len()
        invariant
            i <= v.len(),
            r@ == v@.take(i as int),
        decreases v.len() - i,
    {
        r.push(v[i].clone());
        i = i + 1;
        assert(r@ =~= v@.take(i as int));
    }
    assert(v@.take(v.len() as int) =~= v@);
    r
}

impl CommandArg {
    /// A field-for-field copy.
    pub fn duplicate(&self) -> (r: CommandArg)
        ensures
            r == *self,
    {
        CommandArg {
            name: self.name.clone(),
            rust_type: self.rust_type.clone(),
            required: self.required,
            schema: match &self.schema {
                Some(v) => Some(copy_json(v)),
                None => None,
            },
        }
    }
}

impl CommandInfo {
    /// Creates a new command with the given name and all optional fields set to `None`/empty.
    pub fn new(name: &str) -> (r: CommandInfo)
        ensures
            r.name@ == name@,
            r.plugin is None,
            r.description is None,
            r.args@.len() == 0,
            r.return_type is None,
            !r.is_async,
            r.intent is None,
            r.category is None,
            r.examples@.len() == 0,
    {
        CommandInfo {
            name: owned(name),
            plugin: None,
            description: None,
            args: Vec::new(),
            return_type: None,
            is_async: false,
            intent: None,
            category: None,
            examples: Vec::new(),
        }
    }

    /// Sets the description.
    pub fn with_description(self, description: &str) -> (r: CommandInfo)
        ensures
            opt_string_view(r.description) == Some(description@),
            r == (CommandInfo { description: r.description, ..self }),
    {
        CommandInfo { description: Some(owned(description)), ..self }
    }

    /// Sets the intent phrase for natural-language resolution.
    pub fn with_intent(self, intent: &str) -> (r: CommandInfo)
        ensures
            opt_string_view(r.intent) == Some(intent@),
            r == (CommandInfo { intent: r.intent, ..self }),
    {
        CommandInfo { intent: Some(owned(intent)), ..self }
    }

    /// Sets the category.
    pub fn with_category(self, category: &str) -> (r: CommandInfo)
        ensures
            opt_string_view(r.category) == Some(category@),
            r == (CommandInfo { category: r.category, ..self }),
    {
        CommandInfo { category: Some(owned(category)), ..self }
    }

    /// A field-for-field copy.
    pub fn duplicate(&self) -> (r: CommandInfo)
        ensures
            same_command(r, *self),
    {
        let mut args: Vec<CommandArg> = Vec::new();
        let mut i: usize = 0;
        while i < self.args.len()
            invariant
                i <= self.args.len(),
                args@ == self.args@.take(i as int),
            decreases self.args.len() - i,
        {
            args.push(self.args[i].duplicate());
            i = i + 1;
            assert(args@ =~= self.args@.take(i as int));
        }
        assert(self.args@.take(self.args.len() as int) =~= self.args@);
        CommandInfo {
            name: self.name.clone(),
            plugin: crate::discovery::copy_opt_string(&self.plugin),
            description: crate::discovery::copy_opt_string(&self.description),
            args,
            return_type: crate::discovery::copy_opt_string(&self.return_type),
            is_async: self.is_async,
            intent: crate::discovery::copy_opt_string(&self.intent),
            category: crate::discovery::copy_opt_string(&self.category),
            examples: copy_strings(&self.examples),
        }
    }
}

/// Two commands hold the same metadata.
pub open spec fn same_command(a: CommandInfo, b: CommandInfo) -> bool {
    &&& a.name == b.name
    &&& a.plugin == b.plugin
    &&& a.description == b.description
    &&& a.args@ == b.args@
    &&& a.return_type == b.return_type
    &&& a.is_async == b.is_async
    &&& a.intent == b.intent
    &&& a.category == b.category
    &&& a.examples@ == b.examples@
}

/// Two command lists hold the same metadata, position by position.
pub open spec fn same_commands(a: Seq<CommandInfo>, b: Seq<CommandInfo>) -> bool {
    a.len() == b.len() && forall|i: int| 0 <= i < a.len() ==> same_command(#[trigger] a[i], b[i])
}

// ---------------------------------------------------------------------------
// Name order
// ---------------------------------------------------------------------------

/// `a` sorts strictly before `b`: lexicographic order by code point, which for
/// Rust strings is the same as their byte order.
pub open spec fn name_less(a: Seq<char>, b: Seq<char>) -> bool
    decreases a.len(),
{
    if a.len() == 0 {
        b.len() > 0
    } else if b.len() == 0 {
        false
    } else if a[0] != b[0] {
        a[0] < b[0]
    } else {
        name_less(a.drop_first(), b.drop_first())
    }
}

/// No name sorts before itself.
pub proof fn name_less_irreflexive(a: Seq<char>)
    ensures
        !name_less(a, a),
    decreases a.len(),
{
    if a.len() > 0 {
        name_less_irreflexive(a.drop_first());
    }
}

/// Two different names are ordered one way or the other, never both.
pub proof fn name_less_total(a: Seq<char>, b: Seq<char>)
    ensures
        a != b ==> (name_less(a, b) || name_less(b, a)),
        !(name_less(a, b) && name_less(b, a)),
    decreases a.len(),
{
    if a.len() > 0 && b.len() > 0 {
        if a[0] == b[0] {
            name_less_total(a.drop_first(), b.drop_first());
            if a != b {
                assert(a.drop_first() != b.drop_first()) by {
                    if a.drop_first() == b.drop_first() {
                        assert(a =~= seq![a[0]] + a.drop_first());
                        assert(b =~= seq![b[0]] + b.drop_first());
                    }
                }
            }
        }
    } else if a.len() == 0 && b.len() == 0 {
        assert(a =~= b);
    }
}

/// Name order is transitive.
pub proof fn name_less_transitive(a: Seq<char>, b: Seq<char>, c: Seq<char>)
    requires
        name_less(a, b),
        name_less(b, c),
    ensures
        name_less(a, c),
    decreases a.len(),
{
    if a.len() > 0 && b.len() > 0 && c.len() > 0 {
        if a[0] == b[0] && b[0] == c[0] {
            name_less_transitive(a.drop_first(), b.drop_first(), c.drop_first());
        }
    }
}

/// The order of two names: negative, zero or positive as `a` sorts before,
/// equals, or sorts after `b`.
pub fn compare_names(a: &[char], b: &[char]) -> (r: i8)
    ensures
        r < 0 <==> name_less(a@, b@),
        r == 0 <==> a@ == b@,
        r > 0 <==> name_less(b@, a@),
{
    proof {
        name_less_total(a@, b@);
        name_less_irreflexive(a@);
    }
    let mut i: usize = 0;
    assert(a@.skip(0) =~= a@);
    assert(b@.skip(0) =~= b@);
    while i < a.len() && i < b.len()
        invariant
            i <= a.len(),
            i <= b.len(),
            a@.take(i as int) == b@.take(i as int),
            name_less(a@, b@) == name_less(a@.skip(i as int), b@.skip(i as int)),
            name_less(b@, a@) == name_less(b@.skip(i as int), a@.skip(i as int)),
        decreases a.len() - i,
    {
        if a[i] != b[i] {
            proof {
                let sa = a@.skip(i as int);
                let sb = b@.skip(i as int);
                assert(sa[0] == a@[i as int]);
                assert(sb[0] == b@[i as int]);
                assert(a@[i as int] != b@[i as int]);
            }
            if a[i] < b[i] {
                return -1;
            } else {
                return 1;
            }
        }
        proof {
            let sa = a@.skip(i as int);
            let sb = b@.skip(i as int);
            assert(sa.drop_first() =~= a@.skip(i + 1));
            assert(sb.drop_first() =~= b@.skip(i + 1));
            assert(a@.take(i + 1) =~= a@.take(i as int).push(a@[i as int]));
            assert(b@.take(i + 1) =~= b@.take(i as int).push(b@[i as int]));
        }
        i = i + 1;
    }
    proof {
        let sa = a@.skip(i as int);
        let sb = b@.skip(i as int);
        if i == a.len() {
            assert(a@.take(i as int) =~= a@);
        }
        if i == b.len() {
            assert(b@.take(i as int) =~= b@);
        }
        if i == a.len() && i == b.len() {
            assert(a@ =~= b@);
        }
    }
    if a.len() == b.len() {
        0
    } else if a.len() < b.len() {
        proof {
            if a@ == b@ {
                assert(a@.len() == b@.len());
            }
        }
        -1
    } else {
        proof {
            if a@ == b@ {
                assert(a@.len() == b@.len());
            }
        }
        1
    }
}

// ---------------------------------------------------------------------------
// The registry
// ---------------------------------------------------------------------------

/// The names of `s` are strictly increasing (so each occurs once).
pub open spec fn sorted_by_name(s: Seq<CommandInfo>) -> bool {
    forall|i: int, j: int| 0 <= i < j < s.len() ==> name_less(#[trigger] s[i].name@, #[trigger] s[j].name@)
}

/// The command of `s` named `name`, if any.
pub open spec fn command_named(s: Seq<CommandInfo>, name: Seq<char>) -> Option<CommandInfo> {
    if exists|i: int| 0 <= i < s.len() && (#[trigger] s[i]).name@ == name {
        Some(s[choose|i: int| 0 <= i < s.len() && (#[trigger] s[i]).name@ == name])
    } else {
        None
    }
}

/// `after` is the registry `before` once `info` is registered: `info`
/// replaces the entry of the same name where there is one, and is inserted
/// otherwise, the names staying in order.
pub open spec fn registered(before: Seq<CommandInfo>, info: CommandInfo, after: Seq<CommandInfo>) -> bool {
    &&& sorted_by_name(after)
    &&& (exists|i: int| 0 <= i < before.len() && (#[trigger] before[i]).name@ == info.name@) ==> exists|i: int|
        0 <= i < before.len() && before[i].name@ == info.name@ && after == before.update(i, info)
    &&& (forall|i: int| 0 <= i < before.len() ==> (#[trigger] before[i]).name@ != info.name@) ==> exists|p: int|
        0 <= p <= before.len() && after == before.insert(p, info)
}

/// In a list sorted by name, the command named like entry `i` is entry `i`.
pub proof fn lemma_named_is_unique(s: Seq<CommandInfo>, i: int)
    requires
        sorted_by_name(s),
        0 <= i < s.len(),
    ensures
        command_named(s, s[i].name@) == Some(s[i]),
{
    assert(0 <= i < s.len() && (#[trigger] s[i]).name@ == s[i].name@);
    let j = choose|j: int| 0 <= j < s.len() && (#[trigger] s[j]).name@ == s[i].name@;
    if j < i {
        assert(name_less(s[j].name@, s[i].name@));
        name_less_irreflexive(s[i].name@);
    } else if j > i {
        assert(name_less(s[i].name@, s[j].name@));
        name_less_irreflexive(s[i].name@);
    }
    assert(command_named(s, s[i].name@) == Some(s[j]));
}

/// Once a command is registered, looking its name up finds it; every other
/// name finds what it found before; and the registry grows by one exactly
/// when the name was new.
pub proof fn lookup_after_register(before: Seq<CommandInfo>, info: CommandInfo, after: Seq<CommandInfo>)
    requires
        sorted_by_name(before),
        registered(before, info, after),
    ensures
        command_named(after, info.name@) == Some(info),
        forall|name: Seq<char>| name != info.name@ ==> #[trigger] command_named(after, name) == command_named(before, name),
        after.len() == before.len() + if command_named(before, info.name@) is Some { 0int } else { 1int },
{
    if exists|i: int| 0 <= i < before.len() && (#[trigger] before[i]).name@ == info.name@ {
        let i = choose|i: int| 0 <= i < before.len() && before[i].name@ == info.name@ && after == before.update(i, info);
        assert(after[i] == info);
        lemma_named_is_unique(after, i);
        lemma_named_is_unique(before, i);
        assert forall|name: Seq<char>| name != info.name@ implies #[trigger] command_named(after, name) == command_named(before, name) by {
            if exists|j: int| 0 <= j < before.len() && (#[trigger] before[j]).name@ == name {
                let j = choose|j: int| 0 <= j < before.len() && (#[trigger] before[j]).name@ == name;
                assert(j != i);
                assert(after[j] == before[j]);
                lemma_named_is_unique(before, j);
                lemma_named_is_unique(after, j);
            } else {
                assert forall|j: int| 0 <= j < after.len() implies (#[trigger] after[j]).name@ != name by {
                    if j != i {
                        assert(after[j] == before[j]);
                    }
                }
            }
        }
    } else {
        let p = choose|p: int| 0 <= p <= before.len() && after == before.insert(p, info);
        assert(after[p] == info);
        lemma_named_is_unique(after, p);
        assert forall|name: Seq<char>| name != info.name@ implies #[trigger] command_named(after, name) == command_named(before, name) by {
            if exists|j: int| 0 <= j < before.len() && (#[trigger] before[j]).name@ == name {
                let j = choose|j: int| 0 <= j < before.len() && (#[trigger] before[j]).name@ == name;
                lemma_named_is_unique(before, j);
                if j < p {
                    assert(after[j] == before[j]);
                    lemma_named_is_unique(after, j);
                } else {
                    assert(after[j + 1] == before[j]);
                    lemma_named_is_unique(after, j + 1);
                }
            } else {
                assert forall|j: int| 0 <= j < after.len() implies (#[trigger] after[j]).name@ != name by {
                    if j < p {
                        assert(after[j] == before[j]);
                    } else if j > p {
                        assert(after[j] == before[j - 1]);
                    }
                }
            }
        }
    }
}

/// Registry of known Tauri commands, indexed by name.
#[derive(Debug)]
pub struct CommandRegistry {
    commands: Vec<CommandInfo>,
}

impl CommandRegistry {
    #[verifier::type_invariant]
    spec fn commands_sorted(self) -> bool {
        sorted_by_name(self.commands@)
    }

    /// The registered commands, in name order.
    pub closed spec fn entries(&self) -> Seq<CommandInfo> {
        self.commands@
    }

    /// Creates an empty command registry.
    pub fn new() -> (r: CommandRegistry)
        ensures
            r.entries().len() == 0,
    {
        CommandRegistry { commands: Vec::new() }
    }

    /// Registers a command, replacing any existing entry with the same name.
    pub fn register(&mut self, info: CommandInfo)
        ensures
            registered(old(self).entries(), info, final(self).entries()),
    {
        proof {
            use_type_invariant(&*self);
        }
        let key = chars_of(info.name.as_str());
        let n = self.commands.len();
        let mut p: usize = 0;
        let mut found = false;
        loop
            invariant_except_break
                n == self.commands@.len(),
                p <= n,
                !found,
                forall|k: int| 0 <= k < p ==> name_less(#[trigger] self.commands@[k].name@, key@),
            invariant
                sorted_by_name(self.commands@),
                key@ == info.name@,
            ensures
                n == self.commands@.len(),
                p <= n,
                forall|k: int| 0 <= k < p ==> name_less(#[trigger] self.commands@[k].name@, key@),
                found ==> p < n && self.commands@[p as int].name@ == key@,
                !found ==> p == n || name_less(key@, self.commands@[p as int].name@),
            decreases n - p,
        {
            if p >= n {
                break;
            }
            let here = chars_of(self.commands[p].name.as_str());
            let c = compare_names(here.as_slice(), key.as_slice());
            if c >= 0 {
                found = c == 0;
                break;
            }
            p = p + 1;
        }
        let ghost old_cmds = self.commands@;
        assert(forall|k: int| 0 <= k < p ==> name_less(#[trigger] old_cmds[k].name@, info.name@));
        if found {
            assert(old_cmds[p as int].name@ == info.name@);
            let mut cmds: Vec<CommandInfo> = Vec::new();
            std::mem::swap(&mut cmds, &mut self.commands);
            cmds.set(p, info);
            assert forall|i: int, j: int| 0 <= i < j < cmds@.len() implies name_less(
                #[trigger] cmds@[i].name@,
                #[trigger] cmds@[j].name@,
            ) by {
                assert(name_less(old_cmds[i].name@, old_cmds[j].name@));
            }
            self.commands = cmds;
        } else {
            proof {
                assert forall|k: int| p <= k < n implies name_less(
                    info.name@,
                    #[trigger] old_cmds[k].name@,
                ) by {
                    if k > p {
                        name_less_transitive(info.name@, old_cmds[p as int].name@, old_cmds[k].name@);
                    }
                }
                assert forall|k: int| 0 <= k < n implies old_cmds[k].name@ != info.name@ by {
                    if k < p {
                        name_less_irreflexive(info.name@);
                    } else {
                        name_less_irreflexive(info.name@);
                    }
                }
            }
            let mut cmds: Vec<CommandInfo> = Vec::new();
            std::mem::swap(&mut cmds, &mut self.commands);
            cmds.insert(p, info);
            assert forall|i: int, j: int| 0 <= i < j < cmds@.len() implies name_less(
                #[trigger] cmds@[i].name@,
                #[trigger] cmds@[j].name@,
            ) by {
                if j < p {
                    assert(name_less(old_cmds[i].name@, old_cmds[j].name@));
                } else if i < p && j == p {
                } else if i < p && j > p {
                    name_less_transitive(old_cmds[i].name@, cmds@[p as int].name@, old_cmds[j - 1].name@);
                } else if i == p {
                } else {
                    assert(name_less(old_cmds[i - 1].name@, old_cmds[j - 1].name@));
                }
            }
            self.commands = cmds;
        }
    }

    /// Looks up a command by exact name.
    pub fn get(&self, name: &str) -> (r: Option<CommandInfo>)
        ensures
            match r {
                Some(c) => command_named(self.entries(), name@) matches Some(d) && same_command(
                    c,
                    d,
                ),
                None => command_named(self.entries(), name@) is None,
            },
    {
        proof {
            use_type_invariant(self);
        }
        let mut i: usize = 0;
        while i < self.commands.len()
            invariant
                i <= self.commands@.len(),
                sorted_by_name(self.commands@),
                forall|k: int| 0 <= k < i ==> (#[trigger] self.commands@[k]).name@ != name@,
            decreases self.commands.len() - i,
        {
            if crate::text::str_eq(self.commands[i].name.as_str(), name) {
                proof {
                    let s = self.commands@;
                    let j = choose|j: int| 0 <= j < s.len() && (#[trigger] s[j]).name@ == name@;
                    if j != i {
                        if j < i {
                            name_less_irreflexive(s[j].name@);
                        } else {
                            assert(name_less(s[i as int].name@, s[j].name@));
                            name_less_irreflexive(s[j].name@);
                        }
                    }
                }
                return Some(self.commands[i].duplicate());
            }
            i = i + 1;
        }
        None
    }

    /// Returns all registered commands in name order.
    pub fn list(&self) -> (r: Vec<CommandInfo>)
        ensures
            same_commands(r@, self.entries()),
            sorted_by_name(self.entries()),
    {
        proof {
            use_type_invariant(self);
        }
        let mut r: Vec<CommandInfo> = Vec::new();
        let mut i: usize = 0;
        while i < self.commands.len()
            invariant
                i <= self.commands@.len(),
                r@.len() == i,
                forall|k: int| 0 <= k < i ==> same_command(#[trigger] r@[k], self.commands@[k]),
            decreases self.commands.len() - i,
        {
            r.push(self.commands[i].duplicate());
            i = i + 1;
        }
        r
    }

    /// Returns the number of registered commands.
    pub fn count(&self) -> (r: usize)
        ensures
            r == self.entries().len(),
    {
        self.commands.len()
    }

    /// Creates a registry holding `infos`, registered in order: a later
    /// command replaces an earlier one of the same name.
    pub fn from_commands(infos: Vec<CommandInfo>) -> (r: CommandRegistry)
        ensures
            forall|name: Seq<char>| #[trigger] command_named(r.entries(), name) == last_named(infos@, name),
    {
        let ghost all = infos@;
        assert(all.len() == infos.len());
        let mut rest = infos;
        let mut r = CommandRegistry::new();
        let mut i: usize = 0;
        while rest.len() > 0
            invariant
                i + rest@.len() == all.len(),
                all.len() <= usize::MAX,
                rest@ == all.skip(i as int),
                forall|name: Seq<char>| #[trigger] command_named(r.entries(), name) == last_named(all.take(i as int), name),
            decreases rest.len(),
        {
            proof {
                use_type_invariant(&r);
            }
            let ghost before = r.entries();
            let info = rest.remove(0);
            assert(info == all[i as int]);
            r.register(info);
            proof {
                lookup_after_register(before, all[i as int], r.entries());
                let t = all.take(i + 1);
                assert(t.drop_last() =~= all.take(i as int));
                assert(t.last() == all[i as int]);
                assert(rest@ =~= all.skip(i + 1));
            }
            i = i + 1;
        }
        assert(all.take(i as int) =~= all);
        r
    }
}

impl Default for CommandRegistry {
    fn default() -> (r: CommandRegistry)
        ensures
            r.entries().len() == 0,
    {
        CommandRegistry::new()
    }
}

/// The last command of `v` named `name`, if any.
pub open spec fn last_named(v: Seq<CommandInfo>, name: Seq<char>) -> Option<CommandInfo>
    decreases v.len(),
{
    if v.len() == 0 {
        None
    } else if v.last().name@ == name {
        Some(v.last())
    } else {
        last_named(v.drop_last(), name)
    }
}


// ---------------------------------------------------------------------------
// Search and resolution
// ---------------------------------------------------------------------------

/// The longest query prefix that `resolve` scores, in characters.
pub const MAX_QUERY_LEN: usize = 512;

/// A query cut to its first `MAX_QUERY_LEN` characters.
pub open spec fn clipped(q: Seq<char>) -> Seq<char> {
    if q.len() <= MAX_QUERY_LEN {
        q
    } else {
        q.take(MAX_QUERY_LEN as int)
    }
}

/// The text `resolve` scores a query as: its first `MAX_QUERY_LEN`
/// characters, lower-cased.
pub open spec fn resolve_query(q: Seq<char>) -> Seq<char> {
    lowercase_of(clipped(q))
}

/// An optional string, lower-cased.
pub open spec fn lowercased_opt(o: Option<String>) -> Option<Seq<char>> {
    match o {
        Some(s) => Some(lowercase_of(s@)),
        None => None,
    }
}

/// Each string, lower-cased.
pub open spec fn lowercased_all(v: Seq<String>) -> Seq<Seq<char>> {
    v.map_values(|e: String| lowercase_of(e@))
}

/// The relevance of command `c` to the lower-cased query `q`.
#[verifier::opaque]
pub open spec fn command_score(c: CommandInfo, q: Seq<char>) -> Score {
    ranked_score(
        lowercase_of(c.name@),
        lowercased_opt(c.description),
        lowercased_opt(c.intent),
        lowercased_opt(c.category),
        lowercased_all(c.examples@),
        q,
    )
}

/// A command paired with its relevance score from natural-language resolution.
#[derive(Debug)]
pub struct ScoredCommand {
    /// The matched command metadata.
    pub command: CommandInfo,
    /// Relevance score (higher is better).
    pub score: Score,
}

/// `a` is listed before `b`: a higher score, or an equal score and a name
/// that sorts first.
#[verifier::opaque]
pub open spec fn ranks_before(a: ScoredCommand, b: ScoredCommand) -> bool {
    score_above(a.score, b.score) || (score_ties(a.score, b.score) && name_less(
        a.command.name@,
        b.command.name@,
    ))
}

/// Every entry of `s` is listed before every later one.
pub open spec fn ranked_in_order(s: Seq<ScoredCommand>) -> bool {
    forall|i: int, j: int| 0 <= i < j < s.len() ==> ranks_before(#[trigger] s[i], #[trigger] s[j])
}

/// Command `c` matches the lower-cased query `ql` in its lower-cased name or
/// description.
pub open spec fn search_hit(c: CommandInfo, ql: Seq<char>) -> bool {
    has_substring(lowercase_of(c.name@), ql) || (c.description matches Some(d) && has_substring(
        lowercase_of(d@),
        ql,
    ))
}

/// The commands among the first `k` of `s` that match `ql`, in order.
pub open spec fn search_upto(s: Seq<CommandInfo>, ql: Seq<char>, k: int) -> Seq<CommandInfo>
    decreases k,
{
    if k <= 0 {
        seq![]
    } else if search_hit(s[k - 1], ql) {
        search_upto(s, ql, k - 1).push(s[k - 1])
    } else {
        search_upto(s, ql, k - 1)
    }
}

/// Whether a query (lower-cased) occurs in a lower-cased name or description.
pub fn query_matches(name_lower: &str, description_lower: Option<&str>, query_lower: &str) -> (r: bool)
    ensures
        r == (has_substring(name_lower@, query_lower@) || (description_lower matches Some(d)
            && has_substring(d@, query_lower@))),
{
    let q = chars_of(query_lower);
    if contains_chars(chars_of(name_lower).as_slice(), q.as_slice()) {
        return true;
    }
    match description_lower {
        Some(d) => contains_chars(chars_of(d).as_slice(), q.as_slice()),
        None => false,
    }
}

fn lower_chars(s: &str) -> (r: Vec<char>)
    ensures
        r@ == lowercase_of(s@),
{
    let l = lowercase(s);
    chars_of(l.as_str())
}

fn lower_opt(o: &Option<String>) -> (r: Option<Vec<char>>)
    ensures
        match r {
            Some(v) => lowercased_opt(*o) == Some(v@),
            None => o is None,
        },
{
    match o {
        Some(s) => Some(lower_chars(s.as_str())),
        None => None,
    }
}

fn opt_slice(o: &Option<Vec<char>>) -> (r: Option<&[char]>)
    ensures
        opt_chars(r) == match o {
            Some(v) => Some(v@),
            None => None::<Seq<char>>,
        },
{
    match o {
        Some(v) => Some(v.as_slice()),
        None => None,
    }
}

fn lower_all(v: &Vec<String>) -> (r: Vec<Vec<char>>)
    ensures
        char_views(r@) == lowercased_all(v@),
{
    let mut r: Vec<Vec<char>> = Vec::new();
    let mut i: usize = 0;
    while i < v.len()
        invariant
            i <= v@.len(),
            char_views(r@) == lowercased_all(v@.take(i as int)),
        decreases v.len() - i,
    {
        let ghost prev = r@;
        let l = lower_chars(v[i].as_str());
        let ghost lv = l@;
        r.push(l);
        assert(char_views(r@) =~= char_views(prev).push(lv));
        assert(lowercased_all(v@.take(i + 1)) =~= lowercased_all(v@.take(i as int)).push(lowercase_of(v@[i as int]@)));
        i = i + 1;
    }
    assert(v@.take(v.len() as int) =~= v@);
    r
}

/// The score of a command against the lower-cased query `q` with words `ws`.
fn score_command(c: &CommandInfo, q: &[char], ws: &[Vec<char>]) -> (r: Score)
    requires
        char_views(ws@) == words(q@),
        ws@.len() > 0,
    ensures
        r == command_score(*c, q@),
        r.wf(),
        r.words == ws@.len(),
{
    let name = lower_chars(c.name.as_str());
    let description = lower_opt(&c.description);
    let intent = lower_opt(&c.intent);
    let category = lower_opt(&c.category);
    let examples = lower_all(&c.examples);
    proof {
        reveal(command_score);
    }
    score_lowered(
        name.as_slice(),
        opt_slice(&description),
        opt_slice(&intent),
        opt_slice(&category),
        examples.as_slice(),
        q,
        ws,
    )
}

/// Inserting `x` after every entry that outranks it and before the first
/// one it outranks by score keeps a ranking in order.
proof fn lemma_insert_ranked(out: Seq<ScoredCommand>, p: int, x: ScoredCommand)
    requires
        ranked_in_order(out),
        forall|i: int| 0 <= i < out.len() ==> (#[trigger] out[i]).score.wf(),
        x.score.wf(),
        0 <= p <= out.len(),
        forall|i: int| 0 <= i < p ==> ranks_before(#[trigger] out[i], x),
        p < out.len() ==> score_above(x.score, out[p].score),
    ensures
        ranked_in_order(out.insert(p, x)),
{
    reveal(ranks_before);
    let n = out.insert(p, x);
    assert forall|i: int, j: int| 0 <= i < j < n.len() implies ranks_before(#[trigger] n[i], #[trigger] n[j]) by {
        if j < p {
            assert(n[i] == out[i] && n[j] == out[j]);
        } else if j == p {
            assert(n[i] == out[i] && n[j] == x);
        } else if i == p {
            assert(n[i] == x && n[j] == out[j - 1]);
            if j - 1 > p {
                assert(ranks_before(out[p], out[j - 1]));
                lemma_score_order_transitive(x.score, out[p].score, out[j - 1].score);
            }
        } else if i < p {
            assert(n[i] == out[i] && n[j] == out[j - 1]);
        } else {
            assert(n[i] == out[i - 1] && n[j] == out[j - 1]);
        }
    }
}

/// The first position of `out` whose score is below that of `x`, or its end.
fn insertion_point(out: &Vec<ScoredCommand>, x: &ScoredCommand, w: usize) -> (p: usize)
    requires
        x.score.wf(),
        x.score.words == w,
        forall|i: int| 0 <= i < out@.len() ==> (#[trigger] out@[i]).score.wf() && out@[i].score.words == w,
    ensures
        p <= out@.len(),
        forall|i: int| 0 <= i < p ==> score_above((#[trigger] out@[i]).score, x.score) || score_ties(out@[i].score, x.score),
        p < out@.len() ==> score_above(x.score, out@[p as int].score),
{
    let mut p: usize = 0;
    while p < out.len()
        invariant
            p <= out@.len(),
            x.score.wf(),
            x.score.words == w,
            forall|i: int| 0 <= i < out@.len() ==> (#[trigger] out@[i]).score.wf() && out@[i].score.words == w,
            forall|i: int| 0 <= i < p ==> score_above((#[trigger] out@[i]).score, x.score) || score_ties(out@[i].score, x.score),
        decreases out.len() - p,
    {
        let c = compare_scores(&out[p].score, &x.score);
        if c < 0 {
            return p;
        }
        p = p + 1;
    }
    p
}

/// Every entry of `out` is a scored copy of one of the first `k` commands,
/// with a score above zero.
#[verifier::opaque]
pub open spec fn drawn_from(out: Seq<ScoredCommand>, entries: Seq<CommandInfo>, q: Seq<char>, k: int) -> bool {
    forall|i: int|
        0 <= i < out.len() ==> exists|kk: int|
            0 <= kk < k && same_command((#[trigger] out[i]).command, entries[kk]) && out[i].score
                == command_score(entries[kk], q) && score_positive(out[i].score)
}

/// Every one of the first `k` commands that scores above zero is listed in `out`.
#[verifier::opaque]
pub open spec fn lists_positive(out: Seq<ScoredCommand>, entries: Seq<CommandInfo>, q: Seq<char>, k: int) -> bool {
    forall|kk: int|
        0 <= kk < k && score_positive(#[trigger] command_score(entries[kk], q)) ==> exists|i: int|
            0 <= i < out.len() && same_command(out[i].command, entries[kk])
}

/// The resolution of the first `k` commands, as `resolve` builds it: each
/// entry a scored copy of one of them, positive, in ranking order.
pub open spec fn partial_resolution(out: Seq<ScoredCommand>, entries: Seq<CommandInfo>, q: Seq<char>, k: int) -> bool {
    &&& ranked_in_order(out)
    &&& scores_wf(out)
    &&& drawn_from(out, entries, q, k)
    &&& lists_positive(out, entries, q, k)
}

/// Every score of `out` is well formed.
pub open spec fn scores_wf(out: Seq<ScoredCommand>) -> bool {
    forall|i: int| 0 <= i < out.len() ==> (#[trigger] out[i]).score.wf()
}

/// `out` is the resolution of the lower-cased query `q` against the commands
/// `entries`: exactly the commands that score above zero, each with its score,
/// highest score first and equal scores in name order.
pub open spec fn resolution(entries: Seq<CommandInfo>, q: Seq<char>, out: Seq<ScoredCommand>) -> bool {
    partial_resolution(out, entries, q, entries.len() as int)
}

/// Inserting the scored copy `x` of command `k` after the entries whose
/// scores are at least its own keeps the ranking in order: those entries
/// come from earlier commands, whose names sort before.
proof fn lemma_insert_keeps_order(out: Seq<ScoredCommand>, p: int, x: ScoredCommand, entries: Seq<CommandInfo>, q: Seq<char>, k: int)
    requires
        ranked_in_order(out),
        drawn_from(out, entries, q, k),
        sorted_by_name(entries),
        0 <= k < entries.len(),
        same_command(x.command, entries[k]),
        forall|i: int| 0 <= i < out.len() ==> (#[trigger] out[i]).score.wf(),
        x.score.wf(),
        0 <= p <= out.len(),
        forall|i: int| 0 <= i < p ==> score_above((#[trigger] out[i]).score, x.score) || score_ties(out[i].score, x.score),
        p < out.len() ==> score_above(x.score, out[p].score),
    ensures
        ranked_in_order(out.insert(p, x)),
{
    reveal(drawn_from);
    reveal(ranks_before);
    assert forall|i: int| 0 <= i < p implies ranks_before(#[trigger] out[i], x) by {
        let kk = choose|kk: int|
            0 <= kk < k && same_command(out[i].command, entries[kk]) && out[i].score == command_score(entries[kk], q)
                && score_positive(out[i].score);
        assert(name_less(entries[kk].name@, entries[k].name@));
    }
    lemma_insert_ranked(out, p, x);
}

/// After inserting the scored copy `x` of command `k`, every entry still
/// comes from a command among the first `k + 1`.
proof fn lemma_insert_drawn(out: Seq<ScoredCommand>, p: int, x: ScoredCommand, entries: Seq<CommandInfo>, q: Seq<char>, k: int)
    requires
        drawn_from(out, entries, q, k),
        0 <= k < entries.len(),
        same_command(x.command, entries[k]),
        x.score == command_score(entries[k], q),
        score_positive(x.score),
        0 <= p <= out.len(),
    ensures
        drawn_from(out.insert(p, x), entries, q, k + 1),
{
    reveal(drawn_from);
    let n = out.insert(p, x);
    assert forall|i: int| 0 <= i < n.len() implies exists|kk: int|
        0 <= kk < k + 1 && same_command((#[trigger] n[i]).command, entries[kk]) && n[i].score == command_score(entries[kk], q)
            && score_positive(n[i].score) by {
        if i == p {
            assert(n[i] == x);
        } else if i < p {
            assert(n[i] == out[i]);
        } else {
            assert(n[i] == out[i - 1]);
        }
    }
}

/// After inserting the scored copy `x` of command `k`, every positive one of
/// the first `k + 1` commands is listed.
proof fn lemma_insert_lists(out: Seq<ScoredCommand>, p: int, x: ScoredCommand, entries: Seq<CommandInfo>, q: Seq<char>, k: int)
    requires
        lists_positive(out, entries, q, k),
        0 <= k < entries.len(),
        same_command(x.command, entries[k]),
        0 <= p <= out.len(),
    ensures
        lists_positive(out.insert(p, x), entries, q, k + 1),
{
    reveal(lists_positive);
    let n = out.insert(p, x);
    assert forall|kk: int| 0 <= kk < k + 1 && score_positive(#[trigger] command_score(entries[kk], q)) implies exists|i: int|
        0 <= i < n.len() && same_command(n[i].command, entries[kk]) by {
        if kk == k {
            assert(n[p] == x);
        } else {
            let j = choose|j: int| 0 <= j < out.len() && same_command(out[j].command, entries[kk]);
            if j < p {
                assert(n[j] == out[j]);
            } else {
                assert(n[j + 1] == out[j]);
            }
        }
    }
}

/// A command that does not score above zero leaves a partial resolution one
/// command further along.
proof fn lemma_skip_command(out: Seq<ScoredCommand>, entries: Seq<CommandInfo>, q: Seq<char>, k: int)
    requires
        drawn_from(out, entries, q, k),
        lists_positive(out, entries, q, k),
        0 <= k < entries.len(),
        !score_positive(command_score(entries[k], q)),
    ensures
        drawn_from(out, entries, q, k + 1),
        lists_positive(out, entries, q, k + 1),
{
    reveal(drawn_from);
    reveal(lists_positive);
    assert forall|i: int| 0 <= i < out.len() implies exists|kk: int|
        0 <= kk < k + 1 && same_command((#[trigger] out[i]).command, entries[kk]) && out[i].score
            == command_score(entries[kk], q) && score_positive(out[i].score) by {
        let kk = choose|kk: int|
            0 <= kk < k && same_command(out[i].command, entries[kk]) && out[i].score == command_score(entries[kk], q)
                && score_positive(out[i].score);
    }
    assert forall|kk: int| 0 <= kk < k + 1 && score_positive(#[trigger] command_score(entries[kk], q)) implies exists|i: int|
        0 <= i < out.len() && same_command(out[i].command, entries[kk]) by {
        assert(kk != k);
    }
}


/// Search results are registered commands that match the query, in name order.
pub proof fn search_results_match_in_name_order(s: Seq<CommandInfo>, ql: Seq<char>, k: int)
    requires
        sorted_by_name(s),
        0 <= k <= s.len(),
    ensures
        sorted_by_name(search_upto(s, ql, k)),
        forall|i: int|
            0 <= i < search_upto(s, ql, k).len() ==> search_hit(#[trigger] search_upto(s, ql, k)[i], ql) && exists|j: int|
                0 <= j < k && s[j] == search_upto(s, ql, k)[i],
    decreases k,
{
    if k > 0 {
        search_results_match_in_name_order(s, ql, k - 1);
        let prev = search_upto(s, ql, k - 1);
        let cur = search_upto(s, ql, k);
        if search_hit(s[k - 1], ql) {
            assert forall|i: int, j: int| 0 <= i < j < cur.len() implies name_less(
                #[trigger] cur[i].name@,
                #[trigger] cur[j].name@,
            ) by {
                if j == cur.len() - 1 {
                    let m = choose|m: int| 0 <= m < k - 1 && s[m] == prev[i];
                    assert(name_less(s[m].name@, s[k - 1].name@));
                } else {
                    assert(cur[i] == prev[i] && cur[j] == prev[j]);
                }
            }
            assert forall|i: int| 0 <= i < cur.len() implies search_hit(#[trigger] cur[i], ql) && exists|j: int|
                0 <= j < k && s[j] == cur[i] by {
                if i < cur.len() - 1 {
                    assert(cur[i] == prev[i]);
                    let m = choose|m: int| 0 <= m < k - 1 && s[m] == prev[i];
                    assert(s[m] == cur[i]);
                } else {
                    assert(s[k - 1] == cur[i]);
                }
            }
        } else {
            assert forall|i: int| 0 <= i < cur.len() implies search_hit(#[trigger] cur[i], ql) && exists|j: int|
                0 <= j < k && s[j] == cur[i] by {
                let m = choose|m: int| 0 <= m < k - 1 && s[m] == prev[i];
                assert(s[m] == cur[i]);
            }
        }
    }
}

/// Two scored commands agree: the same command metadata and the same score.
#[verifier::opaque]
pub open spec fn same_scored(x: ScoredCommand, y: ScoredCommand) -> bool {
    same_command(x.command, y.command) && x.score == y.score
}

/// Some entry of `b` agrees with `x`.
pub open spec fn has_match(b: Seq<ScoredCommand>, x: ScoredCommand) -> bool {
    exists|j: int| 0 <= j < b.len() && same_scored(x, #[trigger] b[j])
}

/// Each entry of `a` agrees with some entry of `b`.
pub open spec fn covered_by(a: Seq<ScoredCommand>, b: Seq<ScoredCommand>) -> bool {
    forall|i: int| 0 <= i < a.len() ==> #[trigger] has_match(b, a[i])
}

/// Agreement is an equivalence, and the listing order cannot tell agreeing
/// entries apart.
proof fn lemma_same_scored(x: ScoredCommand, y: ScoredCommand, z: ScoredCommand)
    ensures
        same_scored(x, x),
        same_scored(x, y) ==> same_scored(y, x),
        same_scored(x, y) && same_scored(y, z) ==> same_scored(x, z),
        same_scored(x, y) ==> x.score == y.score && ranks_before(x, z) == ranks_before(y, z) && ranks_before(z, x)
            == ranks_before(z, y),
{
    reveal(same_scored);
    reveal(ranks_before);
}

/// Listing order is strict: nothing is listed before an entry that agrees
/// with it, and no two entries are each listed before the other.
proof fn lemma_ranks_strict(x: ScoredCommand, y: ScoredCommand)
    requires
        x.score.wf(),
        y.score.wf(),
    ensures
        same_scored(x, y) ==> !ranks_before(x, y),
        !(ranks_before(x, y) && ranks_before(y, x)),
{
    reveal(same_scored);
    reveal(ranks_before);
    lemma_score_trichotomy(x.score, y.score);
    lemma_score_trichotomy(x.score, x.score);
    name_less_total(x.command.name@, y.command.name@);
    name_less_irreflexive(x.command.name@);
}

/// The tails of two agreeing rankings whose first entries agree still cover
/// each other.
proof fn lemma_tails_cover(a: Seq<ScoredCommand>, b: Seq<ScoredCommand>)
    requires
        a.len() > 0,
        b.len() > 0,
        ranked_in_order(a),
        scores_wf(a),
        covered_by(a, b),
        same_scored(a[0], b[0]),
    ensures
        covered_by(a.drop_first(), b.drop_first()),
{
    let at = a.drop_first();
    let bt = b.drop_first();
    assert forall|p: int| 0 <= p < at.len() implies #[trigger] has_match(bt, at[p]) by {
        assert(at[p] == a[p + 1]);
        assert(has_match(b, a[p + 1]));
        let q = choose|q: int| 0 <= q < b.len() && same_scored(a[p + 1], #[trigger] b[q]);
        if q == 0 {
            assert(ranks_before(a[0], a[p + 1]));
            lemma_ranks_strict(a[0], a[p + 1]);
            lemma_same_scored(a[0], b[0], a[p + 1]);
            lemma_same_scored(a[p + 1], b[0], a[0]);
        }
        assert(bt[q - 1] == b[q]);
        assert(same_scored(at[p], bt[q - 1]));
    }
}

/// Two rankings of the same entries, each strictly in order, agree entry by entry.
proof fn lemma_rankings_agree(a: Seq<ScoredCommand>, b: Seq<ScoredCommand>)
    requires
        ranked_in_order(a),
        ranked_in_order(b),
        scores_wf(a),
        scores_wf(b),
        covered_by(a, b),
        covered_by(b, a),
    ensures
        a.len() == b.len(),
        forall|i: int| 0 <= i < a.len() ==> same_scored(#[trigger] a[i], b[i]),
    decreases a.len() + b.len(),
{
    if a.len() == 0 || b.len() == 0 {
        if a.len() > 0 {
            assert(has_match(b, a[0]));
        }
        if b.len() > 0 {
            assert(has_match(a, b[0]));
        }
        return;
    }
    assert(has_match(b, a[0]));
    assert(has_match(a, b[0]));
    let j = choose|j: int| 0 <= j < b.len() && same_scored(a[0], #[trigger] b[j]);
    let i = choose|i: int| 0 <= i < a.len() && same_scored(b[0], #[trigger] a[i]);
    if j > 0 {
        assert(ranks_before(b[0], b[j]));
        lemma_ranks_strict(b[0], b[j]);
        if i == 0 {
            lemma_same_scored(b[0], a[0], b[j]);
        } else {
            assert(ranks_before(a[0], a[i]));
            lemma_same_scored(a[0], b[j], a[i]);
            lemma_same_scored(a[i], b[0], b[j]);
            lemma_same_scored(b[0], a[i], b[j]);
        }
    }
    assert(j == 0);
    lemma_same_scored(a[0], b[0], a[0]);
    lemma_tails_cover(a, b);
    lemma_tails_cover(b, a);
    let at = a.drop_first();
    let bt = b.drop_first();
    assert(ranked_in_order(at));
    assert(ranked_in_order(bt));
    lemma_rankings_agree(at, bt);
    assert forall|p: int| 0 <= p < a.len() implies same_scored(#[trigger] a[p], b[p]) by {
        if p > 0 {
            assert(a[p] == at[p - 1] && b[p] == bt[p - 1]);
        }
    }
}

/// The command that entry `i` of a partial resolution is a scored copy of.
proof fn drawn_witness(out: Seq<ScoredCommand>, entries: Seq<CommandInfo>, q: Seq<char>, n: int, i: int) -> (k: int)
    requires
        drawn_from(out, entries, q, n),
        0 <= i < out.len(),
    ensures
        0 <= k < n,
        same_command(out[i].command, entries[k]),
        out[i].score == command_score(entries[k], q),
        score_positive(out[i].score),
{
    reveal(drawn_from);
    choose|k: int|
        0 <= k < n && same_command(out[i].command, entries[k]) && out[i].score == command_score(entries[k], q)
            && score_positive(out[i].score)
}

/// Where a positive command `k` is listed in a partial resolution.
proof fn listed_witness(out: Seq<ScoredCommand>, entries: Seq<CommandInfo>, q: Seq<char>, n: int, k: int) -> (j: int)
    requires
        lists_positive(out, entries, q, n),
        0 <= k < n,
        score_positive(command_score(entries[k], q)),
    ensures
        0 <= j < out.len(),
        same_command(out[j].command, entries[k]),
{
    reveal(lists_positive);
    choose|j: int| 0 <= j < out.len() && same_command(out[j].command, entries[k])
}

/// Every entry of one resolution agrees with an entry of another resolution
/// of the same query against the same registry.
proof fn lemma_resolutions_cover(entries: Seq<CommandInfo>, q: Seq<char>, a: Seq<ScoredCommand>, b: Seq<ScoredCommand>)
    requires
        sorted_by_name(entries),
        drawn_from(a, entries, q, entries.len() as int),
        drawn_from(b, entries, q, entries.len() as int),
        lists_positive(b, entries, q, entries.len() as int),
    ensures
        covered_by(a, b),
{
    let n = entries.len() as int;
    assert forall|i: int| 0 <= i < a.len() implies #[trigger] has_match(b, a[i]) by {
        let k = drawn_witness(a, entries, q, n, i);
        let j = listed_witness(b, entries, q, n, k);
        let k2 = drawn_witness(b, entries, q, n, j);
        lemma_named_is_unique(entries, k);
        lemma_named_is_unique(entries, k2);
        assert(entries[k].name@ == entries[k2].name@);
        assert(entries[k] == entries[k2]);
        assert(same_scored(a[i], b[j])) by {
            reveal(same_scored);
        }
    }
}

/// Resolution is deterministic: any two results that meet the resolution of
/// a query against the same registry list the same commands with the same
/// scores in the same order.
pub proof fn resolution_is_deterministic(entries: Seq<CommandInfo>, q: Seq<char>, a: Seq<ScoredCommand>, b: Seq<ScoredCommand>)
    requires
        sorted_by_name(entries),
        resolution(entries, q, a),
        resolution(entries, q, b),
    ensures
        a.len() == b.len(),
        forall|i: int| 0 <= i < a.len() ==> same_scored(#[trigger] a[i], b[i]),
{
    lemma_resolutions_cover(entries, q, a, b);
    lemma_resolutions_cover(entries, q, b, a);
    lemma_rankings_agree(a, b);
}

/// A command whose category holds one of the query's words is found by
/// resolution: whatever else the command holds, it scores above zero, so the
/// resolution of the query lists it.
pub proof fn category_match_is_resolved(entries: Seq<CommandInfo>, q: Seq<char>, out: Seq<ScoredCommand>, k: int)
    requires
        resolution(entries, q, out),
        0 <= k < entries.len(),
        entries[k].category matches Some(c) && hit_count(lowercase_of(c@), words(q)) > 0,
        0 < words(q).len() <= usize::MAX,
        pieces(lowercase_of(entries[k].name@), '_').len() <= usize::MAX,
        entries[k].examples@.len() <= usize::MAX,
    ensures
        exists|i: int| 0 <= i < out.len() && same_command(out[i].command, entries[k]),
{
    let c = entries[k];
    let cat = c.category->Some_0;
    category_words_add_to_score(
        lowercase_of(c.name@),
        lowercased_opt(c.description),
        lowercased_opt(c.intent),
        lowercase_of(cat@),
        lowercased_all(c.examples@),
        q,
    );
    reveal(command_score);
    assert(score_positive(command_score(c, q)));
    reveal(lists_positive);
}

impl CommandRegistry {
    /// Searches commands by substring match on name or description (case-insensitive).
    pub fn search(&self, query: &str) -> (r: Vec<CommandInfo>)
        ensures
            same_commands(r@, search_upto(self.entries(), lowercase_of(query@), self.entries().len() as int)),
    {
        let ql = lowercase(query);
        let ghost q = lowercase_of(query@);
        let mut r: Vec<CommandInfo> = Vec::new();
        let mut i: usize = 0;
        while i < self.commands.len()
            invariant
                i <= self.commands@.len(),
                ql@ == q,
                same_commands(r@, search_upto(self.commands@, q, i as int)),
            decreases self.commands.len() - i,
        {
            let c = &self.commands[i];
            let name = lowercase(c.name.as_str());
            let description = match &c.description {
                Some(d) => Some(lowercase(d.as_str())),
                None => None,
            };
            let hit = match &description {
                Some(d) => query_matches(name.as_str(), Some(d.as_str()), ql.as_str()),
                None => query_matches(name.as_str(), None, ql.as_str()),
            };
            assert(hit == search_hit(self.commands@[i as int], q));
            if hit {
                let ghost before = r@;
                r.push(c.duplicate());
                assert(forall|k: int| 0 <= k < before.len() ==> r@[k] == before[k]);
            }
            i = i + 1;
        }
        r
    }

    /// Resolves a natural-language query to commands ranked by relevance
    /// score: the query's first `MAX_QUERY_LEN` characters are lower-cased and
    /// split into words; a query without words resolves to nothing.
    pub fn resolve(&self, query: &str) -> (r: Vec<ScoredCommand>)
        ensures
            words(resolve_query(query@)).len() == 0 ==> r@.len() == 0,
            words(resolve_query(query@)).len() > 0 ==> resolution(self.entries(), resolve_query(query@), r@),
    {
        proof {
            use_type_invariant(self);
        }
        let all = chars_of(query);
        let head = if all.len() > MAX_QUERY_LEN {
            slice_to_vec(all.as_slice(), 0, MAX_QUERY_LEN)
        } else {
            all
        };
        assert(head@ == clipped(query@));
        let ql = lower_chars(string_of(head.as_slice()).as_str());
        let ghost q = resolve_query(query@);
        let ws = split_words(ql.as_slice());
        if ws.len() == 0 {
            return Vec::new();
        }
        let ghost entries = self.commands@;
        let w = ws.len();
        let mut out: Vec<ScoredCommand> = Vec::new();
        let mut k: usize = 0;
        proof {
            reveal(drawn_from);
            reveal(lists_positive);
        }
        while k < self.commands.len()
            invariant
                k <= entries.len(),
                entries == self.commands@,
                sorted_by_name(entries),
                ql@ == q,
                char_views(ws@) == words(q),
                w == ws@.len(),
                w > 0,
                forall|i: int| 0 <= i < out@.len() ==> (#[trigger] out@[i]).score.wf() && out@[i].score.words == w,
                partial_resolution(out@, entries, q, k as int),
            decreases self.commands.len() - k,
        {
            let score = score_command(&self.commands[k], ql.as_slice(), ws.as_slice());
            if is_positive(&score) {
                let x = ScoredCommand { command: self.commands[k].duplicate(), score };
                let p = insertion_point(&out, &x, w);
                let ghost before = out@;
                proof {
                    lemma_insert_keeps_order(before, p as int, x, entries, q, k as int);
                }
                out.insert(p, x);
                proof {
                    assert(out@ == before.insert(p as int, x));
                    lemma_insert_drawn(before, p as int, x, entries, q, k as int);
                    lemma_insert_lists(before, p as int, x, entries, q, k as int);
                }
            } else {
                proof {
                    lemma_skip_command(out@, entries, q, k as int);
                }
            }
            k = k + 1;
        }
        out
    }
}

} // verus!
