//! Codex: servers live in `[mcp_servers.<name>]` tables of `config.toml`,
//! edited in place through `toml_edit` so that comments, formatting and every
//! other block of the file survive.
use vstd::prelude::*;
use toml_edit::DocumentMut;
use crate::config::{CanonicalConfig, CanonicalConfigV, ServerDefinition, ServerDefinitionV, opt_str, strs, pairs};
use crate::json::lookup;
use crate::targets::{merged_flag, recorded_flag, flags_view, location, locate};
use crate::targets::toml_doc::{
    TomlItem, toml_parsed, toml_root, table_like_at, with_entries, new_child, sub_table,
    with_sub_table, flag_of, read_view, lemma_reads_lookup, toml_parse, toml_new, doc_contains,
    doc_insert_table, doc_is_table_like, doc_flags, entry_contains, entry_insert_table, entry_is_table,
    entry_remove, entry_insert, item_str, item_bool, item_array, item_table, array_new, array_push,
    table_new, table_insert_str, array_strs, table_entries,
};
use crate::env;

verus! {

/// One change to a server's table.
pub enum TomlEdit {
    /// Drop the key.
    Remove(String),
    /// Set the key to a string.
    Str(String, String),
    /// Set the key to an array of strings.
    List(String, Vec<String>),
    /// Set the key to a sub-table of strings.
    Table(String, Vec<(String, String)>),
    /// Set the key to a boolean.
    Flag(String, bool),
}

/// The view of a `TomlEdit`.
pub enum TomlEditV {
    Remove(Seq<char>),
    Str(Seq<char>, Seq<char>),
    List(Seq<char>, Seq<Seq<char>>),
    Table(Seq<char>, Seq<(Seq<char>, Seq<char>)>),
    Flag(Seq<char>, bool),
}

impl View for TomlEdit {
    type V = TomlEditV;

    open spec fn view(&self) -> TomlEditV {
        match self {
            TomlEdit::Remove(k) => TomlEditV::Remove(k@),
            TomlEdit::Str(k, v) => TomlEditV::Str(k@, v@),
            TomlEdit::List(k, v) => TomlEditV::List(k@, strs(v@)),
            TomlEdit::Table(k, v) => TomlEditV::Table(k@, pairs(v@)),
            TomlEdit::Flag(k, b) => TomlEditV::Flag(k@, *b),
        }
    }
}

/// The view of a list of edits.
pub open spec fn edits_view(v: Seq<TomlEdit>) -> Seq<TomlEditV> {
    v.map_values(|e: TomlEdit| e@)
}

/// The edits a Codex server table receives for a canonical server.
///
/// A remote server loses `command`, `args` and `env`, gets `url`, and gets
/// `http_headers` when headers are defined. A local server loses `url` and
/// `http_headers` and gets `command`, `args` and `env`, each when defined.
/// Either way `env_vars` is set when defined, and the server is switched off
/// with `enabled = false`, or `enabled` is removed when it is on.
pub open spec fn codex_edits(s: ServerDefinitionV, enabled: bool) -> Seq<TomlEditV> {
    let endpoint = match s.remote_url() {
        Some(u) => seq![
            TomlEditV::Remove("command"@),
            TomlEditV::Remove("args"@),
            TomlEditV::Remove("env"@),
            TomlEditV::Str("url"@, u),
        ] + match s.header_map() {
            Some(h) => seq![TomlEditV::Table("http_headers"@, h)],
            None => seq![],
        },
        None => seq![TomlEditV::Remove("url"@), TomlEditV::Remove("http_headers"@)]
            + match s.command {
                Some(c) => seq![TomlEditV::Str("command"@, c)],
                None => seq![],
            }
            + match s.args {
                Some(a) => seq![TomlEditV::List("args"@, a)],
                None => seq![],
            }
            + match s.env {
                Some(e) => seq![TomlEditV::Table("env"@, e)],
                None => seq![],
            },
    };
    let vars = match s.env_vars {
        Some(v) => seq![TomlEditV::List("env_vars"@, v)],
        None => seq![],
    };
    let flag = if enabled {
        seq![TomlEditV::Remove("enabled"@)]
    } else {
        seq![TomlEditV::Flag("enabled"@, false)]
    };
    endpoint + vars + flag
}

/// The on/off state Codex keeps for each listed server: its `enabled`
/// boolean, on when missing or not a boolean.
pub open spec fn codex_states(entries: Seq<(Seq<char>, Option<bool>)>) -> Seq<(Seq<char>, bool)> {
    entries.map_values(|p: (Seq<char>, Option<bool>)| (p.0, match p.1 {
        Some(b) => b,
        None => true,
    }))
}

/// The state a canonical server gets: the state Codex recorded for it, else
/// the definition's `enabled`, else on.
pub open spec fn codex_enabled(states: Seq<(Seq<char>, bool)>, name: Seq<char>, s: ServerDefinitionV) -> bool {
    merged_flag(lookup(states, name), s.enabled, true)
}

/// The default `config.toml` location: under `$CODEX_HOME`, else
/// `~/.codex`, else `.codex` in the working directory.
pub open spec fn codex_default_path(codex_home: Option<Seq<char>>, home: Option<Seq<char>>) -> Seq<char> {
    location(codex_home, "config.toml"@, home, ".codex/config.toml"@, ".codex/config.toml"@)
}

/// The message reported when `mcp_servers` exists and is not a table.
pub open spec fn not_a_table_message() -> Seq<char> {
    "mcp_servers in config.toml is not a table"@
}

/// The key of the servers table.
pub open spec fn mcp_key() -> Seq<char> {
    "mcp_servers"@
}

/// A table built from string pairs, later pairs overriding earlier ones.
pub open spec fn pairs_table(p: Seq<(Seq<char>, Seq<char>)>) -> Map<Seq<char>, TomlItem>
    decreases p.len(),
{
    if p.len() == 0 {
        Map::empty()
    } else {
        pairs_table(p.drop_last()).insert(p.last().0, TomlItem::Str(p.last().1))
    }
}

/// A server table after one edit.
pub open spec fn edit_entries(t: Map<Seq<char>, TomlItem>, e: TomlEditV) -> Map<Seq<char>, TomlItem> {
    match e {
        TomlEditV::Remove(k) => t.remove(k),
        TomlEditV::Str(k, v) => t.insert(k, TomlItem::Str(v)),
        TomlEditV::List(k, v) => t.insert(k, TomlItem::Strs(v)),
        TomlEditV::Table(k, p) => t.insert(k, TomlItem::Table(pairs_table(p))),
        TomlEditV::Flag(k, b) => t.insert(k, TomlItem::Bool(b)),
    }
}

/// A server table after the edits, in order.
pub open spec fn edited(t: Map<Seq<char>, TomlItem>, es: Seq<TomlEditV>) -> Map<Seq<char>, TomlItem>
    decreases es.len(),
{
    if es.len() == 0 {
        t
    } else {
        edit_entries(edited(t, es.drop_last()), es.last())
    }
}

/// The state Codex has recorded for a server in the document it starts from,
/// when `mcp_servers` is a standard table there: its `enabled` boolean (on
/// when missing or not a boolean) when it is listed.
pub open spec fn codex_state(start: Map<Seq<char>, TomlItem>, name: Seq<char>) -> Option<bool> {
    if start.contains_key(mcp_key()) {
        match start[mcp_key()] {
            TomlItem::Table(m) => if m.contains_key(name) {
                Some(match flag_of(m[name], "enabled"@) {
                    Some(b) => b,
                    None => true,
                })
            } else {
                None
            },
            _ => None,
        }
    } else {
        None
    }
}

/// Whether `mcp_servers` is absent or a standard table.
pub open spec fn servers_table_or_absent(start: Map<Seq<char>, TomlItem>) -> bool {
    !start.contains_key(mcp_key()) || start[mcp_key()] is Table
}

/// The document after one canonical server is written: its entry under
/// `mcp_servers` is created (empty) when missing, then, when it is a
/// standard table, receives the server's edits.
pub open spec fn with_server(
    root: Map<Seq<char>, TomlItem>,
    name: Seq<char>,
    s: ServerDefinitionV,
    enabled: bool,
) -> Map<Seq<char>, TomlItem> {
    match table_like_at(root, mcp_key()) {
        Some(m) => {
            let parent = root[mcp_key()];
            let m1 = if m.contains_key(name) { m } else { m.insert(name, new_child(parent)) };
            let r1 = root.insert(mcp_key(), with_entries(parent, m1));
            match sub_table(r1, mcp_key(), name) {
                Some(t) => with_sub_table(r1, mcp_key(), name, edited(t, codex_edits(s, enabled))),
                None => r1,
            }
        },
        None => root,
    }
}

/// The document after the servers are written in order, each with the state
/// recorded in the starting document `start`, else its own, else on.
pub open spec fn codex_apply(
    start: Map<Seq<char>, TomlItem>,
    servers: Seq<(Seq<char>, ServerDefinitionV)>,
    root: Map<Seq<char>, TomlItem>,
) -> Map<Seq<char>, TomlItem>
    decreases servers.len(),
{
    if servers.len() == 0 {
        root
    } else {
        let r = codex_apply(start, servers.drop_last(), root);
        let (n, s) = servers.last();
        with_server(r, n, s, merged_flag(codex_state(start, n), s.enabled, true))
    }
}

/// The document synchronization starts from: the existing text's contents
/// when it is valid TOML, else an empty document.
pub open spec fn codex_start(existing: Option<Seq<char>>) -> Map<Seq<char>, TomlItem> {
    match existing {
        Some(t) => match toml_parsed(t) {
            Some(m) => m,
            None => Map::empty(),
        },
        None => Map::empty(),
    }
}

/// The starting document with an empty `mcp_servers` table added when it
/// has none.
pub open spec fn codex_prepared(start: Map<Seq<char>, TomlItem>) -> Map<Seq<char>, TomlItem> {
    if start.contains_key(mcp_key()) {
        start
    } else {
        start.insert(mcp_key(), TomlItem::Table(Map::empty()))
    }
}

/// The updated document, or the error when `mcp_servers` is not a table.
pub open spec fn codex_update(cfg: CanonicalConfigV, existing: Option<Seq<char>>) -> Result<Map<Seq<char>, TomlItem>, Seq<char>> {
    let start = codex_start(existing);
    let r0 = codex_prepared(start);
    if table_like_at(r0, mcp_key()) is None {
        Err(not_a_table_message())
    } else {
        Ok(codex_apply(start, cfg.servers, r0))
    }
}

proof fn lemma_states_lookup(v: Seq<(Seq<char>, Option<bool>)>, k: Seq<char>)
    ensures
        lookup(codex_states(v), k) == match lookup(v, k) {
            Some(o) => Some(match o {
                Some(b) => b,
                None => true,
            }),
            None => None::<bool>,
        },
    decreases v.len(),
{
    if v.len() > 0 {
        assert(codex_states(v).drop_first() =~= codex_states(v.drop_first()));
        lemma_states_lookup(v.drop_first(), k);
    }
}

/// Appends `e` to `out`, keeping the view in step.
fn push_edit(out: &mut Vec<TomlEdit>, e: TomlEdit)
    ensures
        edits_view(final(out)@) == edits_view(old(out)@).push(e@),
{
    let ghost ev = e@;
    out.push(e);
    assert(edits_view(out@) =~= edits_view(old(out)@).push(ev));
}

/// A copy of a list of strings.
fn copy_strs(v: &Vec<String>) -> (r: Vec<String>)
    ensures
        strs(r@) == strs(v@),
{
    let mut out: Vec<String> = Vec::new();
    let mut i: usize = 0;
    while i < v.len()
        invariant
            i <= v@.len(),
            out@.len() == i,
            forall|t: int| 0 <= t < i ==> (#[trigger] out@[t])@ == v@[t]@,
        decreases v@.len() - i,
    {
        out.push(v[i].clone());
        i = i + 1;
    }
    assert(strs(out@) =~= strs(v@));
    out
}

/// A copy of a list of string pairs.
fn copy_pairs(v: &Vec<(String, String)>) -> (r: Vec<(String, String)>)
    ensures
        pairs(r@) == pairs(v@),
{
    let mut out: Vec<(String, String)> = Vec::new();
    let mut i: usize = 0;
    while i < v.len()
        invariant
            i <= v@.len(),
            out@.len() == i,
            forall|t: int| 0 <= t < i ==> (#[trigger] out@[t]).0@ == v@[t].0@ && out@[t].1@ == v@[t].1@,
        decreases v@.len() - i,
    {
        out.push((v[i].0.clone(), v[i].1.clone()));
        i = i + 1;
    }
    assert(pairs(out@) =~= pairs(v@));
    out
}

/// The Codex client.
pub struct CodexTarget {
    path: String,
}

impl View for CodexTarget {
    type V = Seq<char>;

    /// The `config.toml` file of this target.
    closed spec fn view(&self) -> Seq<char> {
        self.path@
    }
}

impl CodexTarget {
    /// A target for the file at `path`, or, when none is given,
    /// `config.toml` under `codex_home` (the `CODEX_HOME` variable), else
    /// `~/.codex/config.toml`.
    pub fn new(path: Option<String>, codex_home: Option<String>) -> (r: Self)
        ensures
            match path {
                Some(p) => r@ == p@,
                None => exists|h: Option<Seq<char>>| r@ == codex_default_path(opt_str(codex_home), h),
            },
    {
        match path {
            Some(p) => {
                let r = CodexTarget { path: p };
                assert(r@ == p@);
                r
            },
            None => {
                let h = env::home_dir();
                let p = locate(&codex_home, "config.toml", &h, ".codex/config.toml", ".codex/config.toml");
                let r = CodexTarget { path: p };
                assert(r@ == codex_default_path(opt_str(codex_home), opt_str(h)));
                r
            },
        }
    }

    /// The `config.toml` file this target edits.
    pub fn path(&self) -> (r: &str)
        ensures
            r@ == self@,
    {
        self.path.as_str()
    }

    /// The on/off states of the servers listed under `mcp_servers`, from the
    /// entries read there (`None`: no such table): missing or non-boolean
    /// `enabled` counts as on.
    pub fn recorded_states(entries: Option<Vec<(String, Option<bool>)>>) -> (r: Vec<(String, bool)>)
        ensures
            flags_view(r@) == match entries {
                Some(e) => codex_states(read_view(e@)),
                None => seq![],
            },
    {
        let mut out: Vec<(String, bool)> = Vec::new();
        match entries {
            None => {
                assert(flags_view(out@) =~= seq![]);
                out
            },
            Some(e) => {
                let ghost ev = read_view(e@);
                let mut i: usize = 0;
                while i < e.len()
                    invariant
                        i <= e@.len(),
                        ev == read_view(e@),
                        flags_view(out@) == codex_states(ev.subrange(0, i as int)),
                    decreases e@.len() - i,
                {
                    let on = match e[i].1 {
                        Some(b) => b,
                        None => true,
                    };
                    let ghost before = flags_view(out@);
                    out.push((e[i].0.clone(), on));
                    proof {
                        assert(ev.subrange(0, i + 1).drop_last() =~= ev.subrange(0, i as int));
                        assert(flags_view(out@) =~= before.push((e@[i as int].0@, on)));
                        assert(codex_states(ev.subrange(0, i + 1)) =~= codex_states(ev.subrange(0, i as int)).push((e@[i as int].0@, on)));
                    }
                    i = i + 1;
                }
                assert(ev.subrange(0, e@.len() as int) =~= ev);
                out
            },
        }
    }

    /// Reads the existing `config.toml` text (`None` when there is no
    /// readable file): the recorded on/off state of each listed server, and
    /// the parsed document, which is `None` when the text is absent or not
    /// valid TOML (then no state is recorded either).
    pub fn parse_existing_states(content: Option<&str>) -> (r: (Vec<(String, bool)>, Option<DocumentMut>))
        ensures
            r.1 is Some <==> (content matches Some(t) && toml_parsed(t@) is Some),
            r.1 matches Some(d) ==> toml_root(d) == codex_start(opt_text(content)),
            servers_table_or_absent(codex_start(opt_text(content))) ==> forall|k: Seq<char>|
                #[trigger] lookup(flags_view(r.0@), k) == codex_state(codex_start(opt_text(content)), k),
    {
        proof {
            reveal_strlit("mcp_servers");
        }
        match content {
            Some(t) => match toml_parse(t) {
                Some(doc) => {
                    let entries = doc_flags(&doc, "mcp_servers", "enabled");
                    let states = Self::recorded_states(entries);
                    proof {
                        let start = codex_start(opt_text(content));
                        assert(start == toml_root(doc));
                        if servers_table_or_absent(start) {
                            assert forall|k: Seq<char>| #[trigger] lookup(flags_view(states@), k) == codex_state(start, k) by {
                                match entries {
                                    Some(e) => {
                                        let m = table_like_at(toml_root(doc), "mcp_servers"@)->Some_0;
                                        lemma_states_lookup(read_view(e@), k);
                                        lemma_reads_lookup(read_view(e@), m, "enabled"@, k);
                                    },
                                    None => {},
                                }
                            }
                        }
                    }
                    (states, Some(doc))
                },
                None => (Vec::new(), None),
            },
            None => (Vec::new(), None),
        }
    }

    /// The edits one canonical server's table receives.
    pub fn server_edits(server: &ServerDefinition, enabled: bool) -> (r: Vec<TomlEdit>)
        ensures
            edits_view(r@) == codex_edits(server@, enabled),
    {
        proof {
            reveal_strlit("command");
            reveal_strlit("args");
            reveal_strlit("env");
            reveal_strlit("url");
            reveal_strlit("http_headers");
            reveal_strlit("env_vars");
            reveal_strlit("enabled");
        }
        let ghost s = server@;
        let mut out: Vec<TomlEdit> = Vec::new();
        assert(edits_view(out@) =~= seq![]);
        match server.get_url() {
            Some(u) => {
                push_edit(&mut out, TomlEdit::Remove("command".to_owned()));
                push_edit(&mut out, TomlEdit::Remove("args".to_owned()));
                push_edit(&mut out, TomlEdit::Remove("env".to_owned()));
                push_edit(&mut out, TomlEdit::Str("url".to_owned(), u.to_owned()));
                match server.get_headers() {
                    Some(h) => push_edit(&mut out, TomlEdit::Table("http_headers".to_owned(), copy_pairs(h))),
                    None => {},
                }
            },
            None => {
                push_edit(&mut out, TomlEdit::Remove("url".to_owned()));
                push_edit(&mut out, TomlEdit::Remove("http_headers".to_owned()));
                match &server.command {
                    Some(c) => push_edit(&mut out, TomlEdit::Str("command".to_owned(), c.clone())),
                    None => {},
                }
                match &server.args {
                    Some(a) => push_edit(&mut out, TomlEdit::List("args".to_owned(), copy_strs(a))),
                    None => {},
                }
                match &server.env {
                    Some(e) => push_edit(&mut out, TomlEdit::Table("env".to_owned(), copy_pairs(e))),
                    None => {},
                }
            },
        }
        match &server.env_vars {
            Some(v) => push_edit(&mut out, TomlEdit::List("env_vars".to_owned(), copy_strs(v))),
            None => {},
        }
        if enabled {
            push_edit(&mut out, TomlEdit::Remove("enabled".to_owned()));
        } else {
            push_edit(&mut out, TomlEdit::Flag("enabled".to_owned(), false));
        }
        assert(edits_view(out@) =~= codex_edits(s, enabled));
        out
    }

    /// The state a canonical server gets, from the recorded states.
    pub fn server_enabled(states: &Vec<(String, bool)>, name: &str, server: &ServerDefinition) -> (r: bool)
        ensures
            r == codex_enabled(flags_view(states@), name@, server@),
    {
        match recorded_flag(states, name) {
            Some(b) => b,
            None => match server.enabled {
                Some(b) => b,
                None => true,
            },
        }
    }

    /// Applies one edit to the table of server `name` under `mcp_servers`.
    fn apply_edit(doc: &mut DocumentMut, name: &str, edit: &TomlEdit)
        ensures
            toml_root(*final(doc)) == match sub_table(toml_root(*old(doc)), mcp_key(), name@) {
                Some(t) => with_sub_table(toml_root(*old(doc)), mcp_key(), name@, edit_entries(t, edit@)),
                None => toml_root(*old(doc)),
            },
    {
        proof {
            reveal_strlit("mcp_servers");
        }
        match edit {
            TomlEdit::Remove(k) => entry_remove(doc, "mcp_servers", name, k.as_str()),
            TomlEdit::Str(k, v) => entry_insert(doc, "mcp_servers", name, k.as_str(), item_str(v.as_str())),
            TomlEdit::List(k, v) => {
                let mut arr = array_new();
                let mut i: usize = 0;
                while i < v.len()
                    invariant
                        i <= v@.len(),
                        array_strs(arr) == strs(v@).subrange(0, i as int),
                    decreases v@.len() - i,
                {
                    array_push(&mut arr, v[i].as_str());
                    i = i + 1;
                    assert(array_strs(arr) =~= strs(v@).subrange(0, i as int));
                }
                assert(strs(v@).subrange(0, v@.len() as int) =~= strs(v@));
                entry_insert(doc, "mcp_servers", name, k.as_str(), item_array(arr));
            },
            TomlEdit::Table(k, v) => {
                let mut tbl = table_new();
                let mut i: usize = 0;
                assert(pairs(v@).subrange(0, 0) =~= seq![]);
                while i < v.len()
                    invariant
                        i <= v@.len(),
                        table_entries(tbl) == pairs_table(pairs(v@).subrange(0, i as int)),
                    decreases v@.len() - i,
                {
                    table_insert_str(&mut tbl, v[i].0.as_str(), v[i].1.as_str());
                    proof {
                        assert(pairs(v@).subrange(0, i + 1).drop_last() =~= pairs(v@).subrange(0, i as int));
                    }
                    i = i + 1;
                }
                assert(pairs(v@).subrange(0, v@.len() as int) =~= pairs(v@));
                entry_insert(doc, "mcp_servers", name, k.as_str(), item_table(tbl));
            },
            TomlEdit::Flag(k, b) => entry_insert(doc, "mcp_servers", name, k.as_str(), item_bool(*b)),
        }
    }

    /// Updates the existing `config.toml` text (`None`: no readable file),
    /// or a new document, with every canonical server: each server's table
    /// under `mcp_servers` is created when missing and receives
    /// `server_edits` with the state `server_enabled` gives it; a server
    /// entry that is not a standard table is left alone. Servers the
    /// configuration does not define, and every other part of the file, are
    /// not touched. Fails when `mcp_servers` exists and is not a table.
    pub fn update_doc(&self, config: &CanonicalConfig, existing: Option<&str>) -> (r: Result<DocumentMut, String>)
        ensures
            match r {
                Ok(d) => codex_update(config@, opt_text(existing)) == Ok::<Map<Seq<char>, TomlItem>, Seq<char>>(toml_root(d)),
                Err(e) => codex_update(config@, opt_text(existing)) == Err::<Map<Seq<char>, TomlItem>, Seq<char>>(e@),
            },
    {
        proof {
            reveal_strlit("mcp_servers");
        }
        let ghost start = codex_start(opt_text(existing));
        let ghost cv = config@;
        let (states, parsed) = Self::parse_existing_states(existing);
        let mut doc = match parsed {
            Some(d) => d,
            None => toml_new(),
        };
        assert(toml_root(doc) == start);
        if !doc_contains(&doc, "mcp_servers") {
            doc_insert_table(&mut doc, "mcp_servers");
        }
        let ghost r0 = toml_root(doc);
        assert(r0 == codex_prepared(start));
        if !doc_is_table_like(&doc, "mcp_servers") {
            let msg = "mcp_servers in config.toml is not a table".to_owned();
            proof {
                reveal_strlit("mcp_servers in config.toml is not a table");
            }
            return Err(msg);
        }
        let mut i: usize = 0;
        assert(cv.servers.subrange(0, 0) =~= seq![]);
        while i < config.servers.len()
            invariant
                i <= config.servers@.len(),
                cv == config@,
                r0 == codex_prepared(start),
                table_like_at(r0, mcp_key()) is Some,
                servers_table_or_absent(start) ==> forall|k: Seq<char>|
                    #[trigger] lookup(flags_view(states@), k) == codex_state(start, k),
                toml_root(doc) == codex_apply(start, cv.servers.subrange(0, i as int), r0),
                table_like_at(toml_root(doc), mcp_key()) is Some,
                (toml_root(doc)[mcp_key()] is Table) == (r0[mcp_key()] is Table),
            decreases config.servers@.len() - i,
        {
            let name = config.servers[i].0.as_str();
            let server = &config.servers[i].1;
            let ghost before = toml_root(doc);
            assert(cv.servers.subrange(0, i + 1).drop_last() =~= cv.servers.subrange(0, i as int));
            assert(cv.servers[i as int] == (name@, server@));
            if !entry_contains(&doc, "mcp_servers", name) {
                entry_insert_table(&mut doc, "mcp_servers", name);
            }
            let ghost r1 = toml_root(doc);
            if entry_is_table(&doc, "mcp_servers", name) {
                let enabled = Self::server_enabled(&states, name, server);
                assert(r0[mcp_key()] is Table);
                assert(servers_table_or_absent(start));
                let edits = Self::server_edits(server, enabled);
                let ghost t0 = sub_table(r1, mcp_key(), name@)->Some_0;
                let ghost ev = edits_view(edits@);
                let ghost m = match r1[mcp_key()] { TomlItem::Table(m) => m, _ => Map::empty() };
                let mut k: usize = 0;
                proof {
                    assert(ev.subrange(0, 0) =~= seq![]);
                    assert(r1[mcp_key()] == TomlItem::Table(m));
                    assert(m[name@] == TomlItem::Table(t0));
                    assert(m.insert(name@, TomlItem::Table(t0)) =~= m);
                    assert(r1.insert(mcp_key(), TomlItem::Table(m)) =~= r1);
                }
                while k < edits.len()
                    invariant
                        k <= edits@.len(),
                        ev == edits_view(edits@),
                        sub_table(r1, mcp_key(), name@) == Some(t0),
                        r1.contains_key(mcp_key()),
                        r1[mcp_key()] == TomlItem::Table(m),
                        toml_root(doc) == with_sub_table(r1, mcp_key(), name@, edited(t0, ev.subrange(0, k as int))),
                    decreases edits@.len() - k,
                {
                    Self::apply_edit(&mut doc, name, &edits[k]);
                    proof {
                        assert(ev.subrange(0, k + 1).drop_last() =~= ev.subrange(0, k as int));
                        assert(ev[k as int] == edits@[k as int]@);
                        let a = edited(t0, ev.subrange(0, k as int));
                        let b = edited(t0, ev.subrange(0, k + 1));
                        assert(b == edit_entries(a, ev[k as int]));
                        let w = with_sub_table(r1, mcp_key(), name@, a);
                        let m2 = m.insert(name@, TomlItem::Table(a));
                        assert(w == r1.insert(mcp_key(), TomlItem::Table(m2)));
                        assert(sub_table(w, mcp_key(), name@) == Some(a));
                        assert(m2.insert(name@, TomlItem::Table(b)) =~= m.insert(name@, TomlItem::Table(b)));
                        assert(w.insert(mcp_key(), TomlItem::Table(m.insert(name@, TomlItem::Table(b))))
                            =~= r1.insert(mcp_key(), TomlItem::Table(m.insert(name@, TomlItem::Table(b)))));
                    }
                    k = k + 1;
                }
                assert(ev.subrange(0, ev.len() as int) =~= ev);
            } else {
                assert(sub_table(r1, mcp_key(), name@) is None);
            }
            i = i + 1;
        }
        assert(cv.servers.subrange(0, cv.servers.len() as int) =~= cv.servers);
        Ok(doc)
    }
}

/// The view of optional text.
pub open spec fn opt_text(t: Option<&str>) -> Option<Seq<char>> {
    match t {
        Some(s) => Some(s@),
        None => None,
    }
}

} // verus!
