//! The clients the canonical configuration is synchronized into, and the
//! rules they share: which servers a client file keeps, and how a client's
//! own per-server on/off state survives a synchronization.
pub mod antigravity;
pub mod codex;
pub mod toml_doc;
pub mod laws;
pub mod fidelity;
pub mod opencode;
pub mod vscode;
pub mod zed;

pub use antigravity::AntigravityTarget;
pub use codex::CodexTarget;
pub use opencode::OpenCodeTarget;
pub use vscode::VSCodeTarget;
pub use zed::ZedTarget;

use vstd::prelude::*;
use crate::config::{CanonicalConfig, CanonicalConfigV, ServerDefinition, ServerDefinitionV, opt_str};
use crate::json::{Json, JsonV, json_view, members_view, lemma_members_view, lemma_members_view_push, lookup, get_member, object_member, as_bool, lemma_lookup_index, lemma_lookup_none, push_member, str_value, strs_json, map_json, strs_value, map_value};
use crate::text::{str_eq, push_str, push_chars, push_decimal, string_of, decimal};
use crate::targets::zed::join;

verus! {

/// `key: v` when there is a value, nothing otherwise.
pub open spec fn opt_member(key: Seq<char>, v: Option<JsonV>) -> Seq<(Seq<char>, JsonV)> {
    match v {
        Some(x) => seq![(key, x)],
        None => seq![],
    }
}

/// A JSON string for optional text.
pub open spec fn opt_str_value(v: Option<Seq<char>>) -> Option<JsonV> {
    match v {
        Some(s) => Some(JsonV::Str(s)),
        None => None,
    }
}

/// A JSON array for an optional list of texts.
pub open spec fn opt_strs_value(v: Option<Seq<Seq<char>>>) -> Option<JsonV> {
    match v {
        Some(s) => Some(strs_value(s)),
        None => None,
    }
}

/// A JSON object for an optional text map.
pub open spec fn opt_map_value(v: Option<Seq<(Seq<char>, Seq<char>)>>) -> Option<JsonV> {
    match v {
        Some(s) => Some(map_value(s)),
        None => None,
    }
}

/// The members describing how a local (stdio) server is started:
/// `command`, `args` and `env`, each when it is defined.
pub open spec fn local_members(s: ServerDefinitionV) -> Seq<(Seq<char>, JsonV)> {
    opt_member("command"@, opt_str_value(s.command)) + opt_member("args"@, opt_strs_value(s.args))
        + opt_member("env"@, opt_map_value(s.env))
}

/// The on/off state a client keeps for a server: the client's own recorded
/// state wins, then the canonical definition's, then the default.
pub open spec fn merged_flag(recorded: Option<bool>, declared: Option<bool>, default: bool) -> bool {
    match recorded {
        Some(b) => b,
        None => match declared {
            Some(b) => b,
            None => default,
        },
    }
}

/// The entries of a client file that the canonical configuration does not
/// define, in their order: synchronization leaves them as they are.
pub open spec fn unmanaged(cfg: CanonicalConfigV, existing: Seq<(Seq<char>, JsonV)>) -> Seq<(Seq<char>, JsonV)> {
    existing.filter(|p: (Seq<char>, JsonV)| !cfg.defines(p.0))
}

/// The members of `doc[key]` when it is an object, else none.
pub open spec fn existing_members(doc: Option<JsonV>, key: Seq<char>) -> Seq<(Seq<char>, JsonV)> {
    match doc {
        Some(d) => match object_member(d, key) {
            Some(o) => o,
            None => seq![],
        },
        None => seq![],
    }
}

/// The flag `flag` of each entry when it is a boolean, else the default.
pub open spec fn recorded_flags(o: Seq<(Seq<char>, JsonV)>, flag: Seq<char>, default: bool) -> Seq<(Seq<char>, bool)> {
    o.map_values(|p: (Seq<char>, JsonV)| (p.0, match get_member(p.1, flag) {
        Some(v) => match as_bool(v) {
            Some(b) => b,
            None => default,
        },
        None => default,
    }))
}

/// The view of a list of recorded flags.
pub open spec fn flags_view(v: Seq<(String, bool)>) -> Seq<(Seq<char>, bool)> {
    v.map_values(|p: (String, bool)| (p.0@, p.1))
}

/// Reads the entries of `doc[key]` and, for each, its flag `flag`
/// (`default` when missing or not a boolean).
pub fn read_existing(doc: Option<&Json>, key: &str, flag: &str, default: bool) -> (r: (Vec<(String, Json)>, Vec<(String, bool)>))
    ensures
        members_view(r.0@) == existing_members(opt_view(doc), key@),
        flags_view(r.1@) == recorded_flags(existing_members(opt_view(doc), key@), flag@, default),
{
    let mut servers: Vec<(String, Json)> = Vec::new();
    let mut states: Vec<(String, bool)> = Vec::new();
    let entries = match doc {
        Some(d) => match d.get(key) {
            Some(Json::Object(o)) => o,
            _ => {
                assert(members_view(servers@) =~= seq![]);
                assert(flags_view(states@) =~= seq![]);
                return (servers, states);
            },
        },
        None => {
            assert(members_view(servers@) =~= seq![]);
            assert(flags_view(states@) =~= seq![]);
            return (servers, states);
        },
    };
    let ghost ev = members_view(entries@);
    proof {
        lemma_members_view(entries@);
    }
    assert(existing_members(opt_view(doc), key@) == ev);
    let mut i: usize = 0;
    while i < entries.len()
        invariant
            i <= entries@.len(),
            ev == members_view(entries@),
            ev.len() == entries@.len(),
            forall|t: int| 0 <= t < entries@.len() ==> #[trigger] ev[t] == (entries@[t].0@, json_view(entries@[t].1)),
            members_view(servers@) == ev.subrange(0, i as int),
            flags_view(states@) == recorded_flags(ev.subrange(0, i as int), flag@, default),
        decreases entries@.len() - i,
    {
        let name = &entries[i].0;
        let val = &entries[i].1;
        let state = match val.get(flag) {
            Some(f) => match f.as_bool() {
                Some(b) => b,
                None => default,
            },
            None => default,
        };
        let copy = val.copy();
        let nm = name.clone();
        proof {
            lemma_members_view_push(servers@, (nm, copy));
        }
        servers.push((nm, copy));
        let ghost before = flags_view(states@);
        states.push((name.clone(), state));
        proof {
            let q = ev.subrange(0, i + 1);
            assert(q.drop_last() =~= ev.subrange(0, i as int));
            assert(q[i as int] == ev[i as int]);
            assert(flags_view(states@) =~= before.push((name@, state)));
            assert(recorded_flags(q, flag@, default) =~= recorded_flags(ev.subrange(0, i as int), flag@, default).push((name@, state)));
        }
        i = i + 1;
        assert(members_view(servers@) =~= ev.subrange(0, i as int));
        assert(flags_view(states@) =~= recorded_flags(ev.subrange(0, i as int), flag@, default));
    }
    assert(ev.subrange(0, ev.len() as int) =~= ev);
    (servers, states)
}

/// The view of an optional value.
pub open spec fn opt_view(doc: Option<&Json>) -> Option<JsonV> {
    match doc {
        Some(d) => Some(json_view(*d)),
        None => None,
    }
}

/// The recorded flag for `name`.
pub fn recorded_flag(states: &Vec<(String, bool)>, name: &str) -> (r: Option<bool>)
    ensures
        r == lookup(flags_view(states@), name@),
{
    let ghost fv = flags_view(states@);
    let mut i: usize = 0;
    while i < states.len()
        invariant
            i <= states@.len(),
            fv == flags_view(states@),
            forall|t: int| 0 <= t < i ==> states@[t].0@ != name@,
        decreases states@.len() - i,
    {
        if str_eq(states[i].0.as_str(), name) {
            proof {
                assert forall|t: int| 0 <= t < i implies fv[t].0 != name@ by {}
                lemma_lookup_index(fv, name@, i as int);
            }
            return Some(states[i].1);
        }
        i = i + 1;
    }
    proof {
        assert forall|t: int| 0 <= t < fv.len() implies fv[t].0 != name@ by {}
        lemma_lookup_none(fv, name@);
    }
    None
}

/// Appends the members describing how a local server is started.
pub fn push_local_members(obj: &mut Vec<(String, Json)>, server: &ServerDefinition)
    ensures
        members_view(final(obj)@) == members_view(old(obj)@) + local_members(server@),
{
    proof {
        reveal_strlit("command");
        reveal_strlit("args");
        reveal_strlit("env");
    }
    let ghost start = members_view(obj@);
    match &server.command {
        Some(cmd) => push_member(obj, "command", str_value(cmd.as_str())),
        None => {},
    }
    match &server.args {
        Some(args) => push_member(obj, "args", strs_json(args)),
        None => {},
    }
    match &server.env {
        Some(env) => push_member(obj, "env", map_json(env)),
        None => {},
    }
    assert(members_view(obj@) =~= start + local_members(server@));
}

/// The entries of `existing` whose names the configuration does not define.
pub fn unmanaged_entries(config: &CanonicalConfig, existing: &Vec<(String, Json)>) -> (r: Vec<(String, Json)>)
    ensures
        members_view(r@) == unmanaged(config@, members_view(existing@)),
{
    let ghost ev = members_view(existing@);
    let ghost pred = |p: (Seq<char>, JsonV)| !config@.defines(p.0);
    proof {
        lemma_members_view(existing@);
    }
    let mut out: Vec<(String, Json)> = Vec::new();
    let mut i: usize = 0;
    assert(ev.subrange(0, 0).filter(pred) =~= seq![]) by {
        reveal(Seq::filter);
    }
    assert(members_view(out@) =~= seq![]);
    while i < existing.len()
        invariant
            i <= existing@.len(),
            ev == members_view(existing@),
            ev.len() == existing@.len(),
            pred == (|p: (Seq<char>, JsonV)| !config@.defines(p.0)),
            forall|t: int| 0 <= t < existing@.len() ==> #[trigger] ev[t] == (existing@[t].0@, json_view(existing@[t].1)),
            members_view(out@) == ev.subrange(0, i as int).filter(pred),
        decreases existing@.len() - i,
    {
        assert(ev.subrange(0, i + 1).drop_last() =~= ev.subrange(0, i as int));
        assert(ev.subrange(0, i + 1).last() == ev[i as int]);
        if !config.contains_server(existing[i].0.as_str()) {
            let copy = existing[i].1.copy();
            let nm = existing[i].0.clone();
            proof {
                lemma_members_view_push(out@, (nm, copy));
                reveal(Seq::filter);
            }
            out.push((nm, copy));
        } else {
            proof {
                reveal(Seq::filter);
            }
        }
        i = i + 1;
    }
    assert(ev.subrange(0, ev.len() as int) =~= ev);
    out
}

/// A client file location: `<dir>/<rel>`, else `<home>/<home_rel>`, else
/// `bare` (relative to the working directory).
pub open spec fn location(
    dir: Option<Seq<char>>,
    rel: Seq<char>,
    home: Option<Seq<char>>,
    home_rel: Seq<char>,
    bare: Seq<char>,
) -> Seq<char> {
    match dir {
        Some(d) => crate::fs_utils::path_join(d, rel),
        None => match home {
            Some(h) => crate::fs_utils::path_join(h, home_rel),
            None => bare,
        },
    }
}

/// Builds a client file location from the platform directories.
pub fn locate(dir: &Option<String>, rel: &str, home: &Option<String>, home_rel: &str, bare: &str) -> (r: String)
    ensures
        r@ == location(crate::config::opt_str(*dir), rel@, crate::config::opt_str(*home), home_rel@, bare@),
{
    match dir {
        Some(d) => crate::fs_utils::join_path(d.as_str(), rel),
        None => match home {
            Some(h) => crate::fs_utils::join_path(h.as_str(), home_rel),
            None => bare.to_owned(),
        },
    }
}

/// The first index of an entry with key `k`.
pub open spec fn key_index<V>(o: Seq<(Seq<char>, V)>, k: Seq<char>) -> Option<int>
    decreases o.len(),
{
    if o.len() == 0 {
        None
    } else if o[o.len() - 1].0 == k && key_index(o.drop_last(), k) is None {
        Some(o.len() - 1)
    } else {
        key_index(o.drop_last(), k)
    }
}

/// The entries with `k` set to `v`: the first entry with that key gets the
/// new value in place, or the entry is added at the end (map insertion).
pub open spec fn put<V>(o: Seq<(Seq<char>, V)>, k: Seq<char>, v: V) -> Seq<(Seq<char>, V)> {
    match key_index(o, k) {
        Some(i) => o.update(i, (k, v)),
        None => o.push((k, v)),
    }
}

proof fn lemma_key_index_prefix<V>(o: Seq<(Seq<char>, V)>, k: Seq<char>, n: int)
    requires
        0 <= n <= o.len(),
        forall|t: int| 0 <= t < n ==> o[t].0 != k,
    ensures
        key_index(o.subrange(0, n), k) is None,
    decreases n,
{
    if n > 0 {
        assert(o.subrange(0, n).drop_last() =~= o.subrange(0, n - 1));
        lemma_key_index_prefix(o, k, n - 1);
    }
}

proof fn lemma_key_index_found<V>(o: Seq<(Seq<char>, V)>, k: Seq<char>, i: int, n: int)
    requires
        0 <= i < n <= o.len(),
        o[i].0 == k,
        forall|t: int| 0 <= t < i ==> o[t].0 != k,
    ensures
        key_index(o.subrange(0, n), k) == Some(i),
    decreases n,
{
    assert(o.subrange(0, n).drop_last() =~= o.subrange(0, n - 1));
    if n == i + 1 {
        lemma_key_index_prefix(o, k, i);
    } else {
        lemma_key_index_found(o, k, i, n - 1);
    }
}

/// Sets member `key` of an object's member list (map insertion).
pub fn put_member(obj: &mut Vec<(String, Json)>, key: &str, v: Json)
    ensures
        members_view(final(obj)@) == put(members_view(old(obj)@), key@, v@),
{
    let ghost ov = members_view(obj@);
    proof {
        lemma_members_view(obj@);
    }
    let mut i: usize = 0;
    while i < obj.len()
        invariant
            i <= obj@.len(),
            obj@ == old(obj)@,
            ov == members_view(obj@),
            ov.len() == obj@.len(),
            forall|t: int| 0 <= t < obj@.len() ==> #[trigger] ov[t] == (obj@[t].0@, json_view(obj@[t].1)),
            forall|t: int| 0 <= t < i ==> ov[t].0 != key@,
        decreases obj@.len() - i,
    {
        if str_eq(obj[i].0.as_str(), key) {
            proof {
                lemma_key_index_found(ov, key@, i as int, ov.len() as int);
                assert(ov.subrange(0, ov.len() as int) =~= ov);
            }
            let ghost vv = v@;
            let k = key.to_owned();
            obj.set(i, (k, v));
            proof {
                lemma_members_view(obj@);
                assert(members_view(obj@) =~= ov.update(i as int, (key@, vv)));
                assert(key_index(ov, key@) == Some(i as int));
                assert(put(ov, key@, vv) == ov.update(i as int, (key@, vv)));
            }
            return;
        }
        i = i + 1;
    }
    proof {
        lemma_key_index_prefix(ov, key@, ov.len() as int);
        assert(ov.subrange(0, ov.len() as int) =~= ov);
    }
    push_member(obj, key, v);
}

/// Appends copies of `rest` to `out`.
pub fn append_entries(out: &mut Vec<(String, Json)>, rest: &Vec<(String, Json)>)
    ensures
        members_view(final(out)@) == members_view(old(out)@) + members_view(rest@),
{
    let ghost head = members_view(out@);
    proof {
        lemma_members_view(rest@);
    }
    let mut k: usize = 0;
    while k < rest.len()
        invariant
            k <= rest@.len(),
            members_view(rest@).len() == rest@.len(),
            forall|t: int| 0 <= t < rest@.len() ==> #[trigger] members_view(rest@)[t] == (rest@[t].0@, json_view(rest@[t].1)),
            members_view(out@) == head + members_view(rest@).subrange(0, k as int),
        decreases rest@.len() - k,
    {
        let copy = rest[k].1.copy();
        let nm = rest[k].0.clone();
        proof {
            lemma_members_view_push(out@, (nm, copy));
        }
        out.push((nm, copy));
        k = k + 1;
        assert(members_view(out@) =~= head + members_view(rest@).subrange(0, k as int));
    }
    assert(members_view(rest@).subrange(0, rest@.len() as int) =~= members_view(rest@));
}

/// The clients that `sync_all` can synchronize.
#[derive(PartialEq, Eq, Structural, Clone, Copy, Debug)]
pub enum TargetKind {
    Zed,
    VSCode,
    Antigravity,
    OpenCode,
}

/// The identifier of a client, as `--target` takes it.
pub open spec fn kind_name(k: TargetKind) -> Seq<char> {
    match k {
        TargetKind::Zed => "zed"@,
        TargetKind::VSCode => "vscode"@,
        TargetKind::Antigravity => "antigravity"@,
        TargetKind::OpenCode => "opencode"@,
    }
}

impl TargetKind {
    /// The identifier of this client.
    pub fn name(&self) -> (r: &'static str)
        ensures
            r@ == kind_name(*self),
    {
        proof {
            reveal_strlit("zed");
            reveal_strlit("vscode");
            reveal_strlit("antigravity");
            reveal_strlit("opencode");
        }
        match self {
            TargetKind::Zed => "zed",
            TargetKind::VSCode => "vscode",
            TargetKind::Antigravity => "antigravity",
            TargetKind::OpenCode => "opencode",
        }
    }
}

/// The registered clients, in the order they are synchronized.
pub open spec fn registry() -> Seq<TargetKind> {
    seq![TargetKind::Zed, TargetKind::VSCode, TargetKind::Antigravity, TargetKind::OpenCode]
}

/// The registry of supported clients, in synchronization order.
pub fn available_targets() -> (r: Vec<TargetKind>)
    ensures
        r@ == registry(),
{
    let r = vec![TargetKind::Zed, TargetKind::VSCode, TargetKind::Antigravity, TargetKind::OpenCode];
    assert(r@ =~= registry());
    r
}

/// Whether a client is selected by a `--target` filter: every client when the
/// filter is empty, else the clients it names.
pub open spec fn wanted(filter: Seq<Seq<char>>, name: Seq<char>) -> bool {
    filter.len() == 0 || filter.contains(name)
}

/// The clients of `ks` the filter selects, in order.
pub open spec fn pick(filter: Seq<Seq<char>>, ks: Seq<TargetKind>) -> Seq<TargetKind>
    decreases ks.len(),
{
    if ks.len() == 0 {
        seq![]
    } else if wanted(filter, kind_name(ks.last())) {
        pick(filter, ks.drop_last()).push(ks.last())
    } else {
        pick(filter, ks.drop_last())
    }
}

/// The registered clients the filter selects, in order.
pub open spec fn selected(filter: Seq<Seq<char>>) -> Seq<TargetKind> {
    pick(filter, registry())
}

proof fn lemma_pick_prefix(filter: Seq<Seq<char>>, ks: Seq<TargetKind>, m: int)
    requires
        0 <= m <= ks.len(),
    ensures
        pick(filter, ks.subrange(0, m)).len() <= pick(filter, ks).len(),
        forall|j: int| 0 <= j < pick(filter, ks.subrange(0, m)).len() ==>
            #[trigger] pick(filter, ks.subrange(0, m))[j] == pick(filter, ks)[j],
    decreases ks.len(),
{
    if m == ks.len() {
        assert(ks.subrange(0, m) =~= ks);
    } else {
        lemma_pick_prefix(filter, ks.drop_last(), m);
        assert(ks.drop_last().subrange(0, m) =~= ks.subrange(0, m));
    }
}

/// Whether the filter selects `name`.
pub fn should_sync(filter: &Vec<String>, name: &str) -> (r: bool)
    ensures
        r == wanted(texts_view(filter@), name@),
{
    let ghost fv = texts_view(filter@);
    if filter.len() == 0 {
        return true;
    }
    let mut i: usize = 0;
    while i < filter.len()
        invariant
            i <= filter@.len(),
            fv == texts_view(filter@),
            forall|j: int| 0 <= j < i ==> fv[j] != name@,
        decreases filter@.len() - i,
    {
        if str_eq(filter[i].as_str(), name) {
            assert(fv[i as int] == name@);
            return true;
        }
        i = i + 1;
    }
    assert forall|j: int| 0 <= j < fv.len() implies fv[j] != name@ by {}
    false
}

/// The message a failed client synchronization is reported with.
pub open spec fn fail_message(name: Seq<char>, e: Seq<char>) -> Seq<char> {
    "["@ + name + "] Sync failed: "@ + e
}

/// The summary logged after every selected client was synchronized.
pub open spec fn summary_message(n: nat, names: Seq<Seq<char>>) -> Seq<char> {
    "Synced "@ + decimal(n) + " servers to targets: ["@ + join(names, ", "@) + "]"@
}

/// The view of a client's outcome.
pub open spec fn outcome_view(o: Result<String, String>) -> Result<Seq<char>, Seq<char>> {
    match o {
        Ok(m) => Ok(m@),
        Err(e) => Err(e@),
    }
}

/// The view of a list of outcomes.
pub open spec fn outcomes_view(outs: Seq<Result<String, String>>) -> Seq<Result<Seq<char>, Seq<char>>> {
    outs.map_values(|o: Result<String, String>| outcome_view(o))
}

/// The message of each outcome (success or failure).
pub open spec fn outcome_texts(outs: Seq<Result<Seq<char>, Seq<char>>>) -> Seq<Seq<char>> {
    outs.map_values(|o: Result<Seq<char>, Seq<char>>| match o {
        Ok(m) => m,
        Err(e) => e,
    })
}

/// Informational log entries for messages.
pub open spec fn info_lines(msgs: Seq<Seq<char>>) -> Seq<(Seq<char>, Seq<char>)> {
    msgs.map_values(|m: Seq<char>| ("INFO"@, m))
}

/// What a synchronization run returns and logs, given the selected clients
/// and the outcomes of the clients it ran, in order: each success is logged;
/// the first failure stops the run, is logged as an error and returned;
/// when all succeed the messages are returned and a summary is logged.
pub open spec fn sync_report(
    sel: Seq<TargetKind>,
    outs: Seq<Result<Seq<char>, Seq<char>>>,
    n: nat,
) -> (Result<Seq<Seq<char>>, Seq<char>>, Seq<(Seq<char>, Seq<char>)>) {
    if outs.len() > 0 && outs.last() is Err {
        let f = fail_message(kind_name(sel[outs.len() - 1]), outs.last()->Err_0);
        (Err(f), info_lines(outcome_texts(outs.drop_last())).push(("ERROR"@, f)))
    } else {
        let msgs = outcome_texts(outs);
        (Ok(msgs), info_lines(msgs).push(("INFO"@, summary_message(n, sel.map_values(|k: TargetKind| kind_name(k))))))
    }
}

/// The outcomes are those of running the first selected clients in order:
/// all succeeded but possibly the last, and the run stopped early only at a
/// failure.
pub open spec fn ran<F: Fn(TargetKind) -> Result<String, String>>(
    run: F,
    sel: Seq<TargetKind>,
    outs: Seq<Result<String, String>>,
) -> bool {
    &&& outs.len() <= sel.len()
    &&& forall|j: int| 0 <= j < outs.len() ==> call_ensures(run, (sel[j],), #[trigger] outs[j])
    &&& forall|j: int| 0 <= j < outs.len() - 1 ==> (#[trigger] outs[j]) is Ok
    &&& outs.len() < sel.len() ==> outs.len() > 0 && outs.last() is Err
}

/// The view of a list of log entries.
pub open spec fn entries_view(v: Seq<(String, String)>) -> Seq<(Seq<char>, Seq<char>)> {
    v.map_values(|p: (String, String)| (p.0@, p.1@))
}

/// The view of a list of texts.
pub open spec fn texts_view(v: Seq<String>) -> Seq<Seq<char>> {
    v.map_values(|t: String| t@)
}

/// Synchronizes every client the filter selects, in registry order, with
/// `run` (which performs one client's synchronization): returns the clients'
/// messages, or the first failure as `[<client>] Sync failed: <error>`, and
/// the `(level, message)` entries to log, in order.
pub fn sync_all<F: Fn(TargetKind) -> Result<String, String>>(
    config: &CanonicalConfig,
    target_filter: &Vec<String>,
    run: &F,
) -> (r: (Result<Vec<String>, String>, Vec<(String, String)>))
    requires
        forall|k: TargetKind| run.requires((k,)),
    ensures
        exists|outs: Seq<Result<String, String>>| {
            &&& #[trigger] ran(*run, selected(texts_view(target_filter@)), outs)
            &&& (match r.0 {
                Ok(m) => Ok(texts_view(m@)),
                Err(e) => Err(e@),
            }, entries_view(r.1@)) == sync_report(
                selected(texts_view(target_filter@)),
                outcomes_view(outs),
                config.servers@.len(),
            )
        },
{
    proof {
        reveal_strlit("INFO");
        reveal_strlit("ERROR");
        reveal_strlit("] Sync failed: ");
        reveal_strlit("[");
        reveal_strlit(", ");
        reveal_strlit("Synced ");
        reveal_strlit(" servers to targets: [");
        reveal_strlit("]");
    }
    let ghost fv = texts_view(target_filter@);
    let ghost full = selected(fv);
    let all = available_targets();
    let mut messages: Vec<String> = Vec::new();
    let mut logs: Vec<(String, String)> = Vec::new();
    let mut names: Vec<char> = Vec::new();
    let ghost mut outs: Seq<Result<String, String>> = seq![];
    let ghost mut sel: Seq<TargetKind> = seq![];
    let mut i: usize = 0;
    assert(registry().subrange(0, 0) =~= seq![]);
    while i < all.len()
        invariant
            i <= all@.len(),
            all@ == registry(),
            fv == texts_view(target_filter@),
            full == selected(fv),
            forall|k: TargetKind| run.requires((k,)),
            sel == pick(fv, registry().subrange(0, i as int)),
            outs.len() == sel.len(),
            forall|j: int| 0 <= j < outs.len() ==> call_ensures(*run, (sel[j],), #[trigger] outs[j]),
            forall|j: int| 0 <= j < outs.len() ==> (#[trigger] outs[j]) is Ok,
            texts_view(messages@) == outcome_texts(outcomes_view(outs)),
            entries_view(logs@) == info_lines(texts_view(messages@)),
            names@ == join(sel.map_values(|k: TargetKind| kind_name(k)), ", "@),
        decreases all@.len() - i,
    {
        let k = all[i];
        let ghost before = registry().subrange(0, i as int);
        assert(registry().subrange(0, i + 1).drop_last() =~= before);
        if should_sync(target_filter, k.name()) {
            let out = run(k);
            proof {
                lemma_pick_prefix(fv, registry(), i + 1);
            }
            match out {
                Ok(msg) => {
                    let first = messages.len() == 0;
                    let ghost oldsel = sel;
                    let ghost oldouts = outs;
                    let ghost oldnames = names@;
                    let ghost mv = messages@;
                    let ghost lv = logs@;
                    proof {
                        outs = outs.push(Ok(msg));
                        sel = sel.push(k);
                    }
                    logs.push(("INFO".to_owned(), msg.clone()));
                    messages.push(msg);
                    if !first {
                        push_str(&mut names, ", ");
                    }
                    push_str(&mut names, k.name());
                    proof {
                        let nm = sel.map_values(|x: TargetKind| kind_name(x));
                        assert(nm.drop_last() =~= oldsel.map_values(|x: TargetKind| kind_name(x)));
                        if oldsel.len() == 0 {
                            assert(names@ =~= join(nm, ", "@));
                        } else {
                            assert(names@ =~= join(nm, ", "@));
                        }
                        assert(outcomes_view(outs) =~= outcomes_view(oldouts).push(Ok(msg@)));
                        assert(texts_view(messages@) =~= texts_view(mv).push(msg@));
                        assert(entries_view(logs@) =~= entries_view(lv).push(("INFO"@, msg@)));
                        assert(texts_view(messages@) =~= outcome_texts(outcomes_view(outs)));
                        assert(entries_view(logs@) =~= info_lines(texts_view(messages@)));
                    }
                },
                Err(e) => {
                    let mut f: Vec<char> = Vec::new();
                    push_str(&mut f, "[");
                    push_str(&mut f, k.name());
                    push_str(&mut f, "] Sync failed: ");
                    push_str(&mut f, e.as_str());
                    let fail = string_of(f.as_slice());
                    let ghost lv = logs@;
                    let ghost oldouts = outs;
                    logs.push(("ERROR".to_owned(), fail.clone()));
                    proof {
                        let o2 = outs.push(Err(e));
                        let s2 = sel.push(k);
                        assert(s2 == pick(fv, registry().subrange(0, i + 1)));
                        assert(s2[sel.len() as int] == k);
                        assert(pick(fv, registry().subrange(0, i + 1))[sel.len() as int] == k);
                        assert(full[sel.len() as int] == k);
                        assert forall|j: int| 0 <= j < o2.len() implies call_ensures(*run, (full[j],), #[trigger] o2[j]) by {
                            if j < sel.len() {
                                assert(full[j] == s2[j]);
                            }
                        }
                        assert(ran(*run, full, o2));
                        let ov = outcomes_view(o2);
                        assert(ov.drop_last() =~= outcomes_view(oldouts));
                        assert(fail@ == fail_message(kind_name(full[o2.len() - 1]), ov.last()->Err_0));
                        assert(entries_view(logs@) =~= entries_view(lv).push(("ERROR"@, fail@)));
                        assert(sync_report(full, ov, config.servers@.len()).1 =~= entries_view(logs@));
                    }
                    return (Err(fail), logs);
                },
            }
        } else {
            assert(sel == pick(fv, registry().subrange(0, i + 1)));
        }
        i = i + 1;
    }
    let mut sum: Vec<char> = Vec::new();
    push_str(&mut sum, "Synced ");
    push_decimal(&mut sum, config.servers.len() as u128);
    push_str(&mut sum, " servers to targets: [");
    push_chars(&mut sum, &names);
    push_str(&mut sum, "]");
    let summary = string_of(sum.as_slice());
    let ghost lv = logs@;
    logs.push(("INFO".to_owned(), summary));
    proof {
        assert(registry().subrange(0, 4) =~= registry());
        assert(sel == full);
        assert(ran(*run, full, outs));
        assert(entries_view(logs@) =~= entries_view(lv).push(("INFO"@, summary@)));
        assert(summary@ =~= summary_message(config.servers@.len(), full.map_values(|k: TargetKind| kind_name(k))));
        let ov = outcomes_view(outs);
        assert(!(ov.len() > 0 && ov.last() is Err));
    }
    (Ok(messages), logs)
}

/// The JSON an optional existing file text holds: none when there is no
/// text or it is not JSON.
pub open spec fn existing_json(existing: Option<Seq<char>>) -> Option<JsonV> {
    match existing {
        Some(t) => crate::json_text::json_of_text(t),
        None => None,
    }
}

/// The view of optional text.
pub open spec fn opt_text_view(t: Option<&str>) -> Option<Seq<char>> {
    match t {
        Some(s) => Some(s@),
        None => None,
    }
}

/// Parses an optional existing file text, leniently: none when there is no
/// text or it is not JSON.
pub fn parse_existing_text(existing: Option<&str>) -> (r: Option<Json>)
    ensures
        crate::config::opt_json(r) == existing_json(opt_text_view(existing)),
{
    match existing {
        Some(t) => crate::json_text::parse_json_text(t),
        None => None,
    }
}

/// `prefix` followed by `msg`.
pub fn prefixed(prefix: &str, msg: &str) -> (r: String)
    ensures
        r@ == prefix@ + msg@,
{
    let mut out: Vec<char> = Vec::new();
    push_str(&mut out, prefix);
    push_str(&mut out, msg);
    string_of(out.as_slice())
}

/// When every selected client succeeds, a run returns the clients'
/// messages in registry order and logs each of them, then the summary of
/// the servers and clients synchronized.
pub proof fn law_sync_all_succeeds<F: Fn(TargetKind) -> Result<String, String>>(
    run: F,
    sel: Seq<TargetKind>,
    outs: Seq<Result<String, String>>,
    n: nat,
)
    requires
        ran(run, sel, outs),
        forall|k: TargetKind, o: Result<String, String>| call_ensures(run, (k,), o) ==> o is Ok,
    ensures
        outs.len() == sel.len(),
        sync_report(sel, outcomes_view(outs), n) == (
            Ok::<Seq<Seq<char>>, Seq<char>>(outcome_texts(outcomes_view(outs))),
            info_lines(outcome_texts(outcomes_view(outs))).push(
                ("INFO"@, summary_message(n, sel.map_values(|k: TargetKind| kind_name(k)))),
            ),
        ),
{
    if outs.len() > 0 {
        assert(call_ensures(run, (sel[outs.len() - 1],), outs[outs.len() - 1]));
    }
}

/// When a selected client fails, the run stops there: no later client is
/// run, the failure `[<client>] Sync failed: <error>` is returned and logged
/// as an error after the earlier clients' messages, and no summary is
/// logged.
pub proof fn law_sync_all_stops_at_failure<F: Fn(TargetKind) -> Result<String, String>>(
    run: F,
    sel: Seq<TargetKind>,
    outs: Seq<Result<String, String>>,
    n: nat,
    j: int,
)
    requires
        ran(run, sel, outs),
        0 <= j < outs.len(),
        outs[j] is Err,
    ensures
        j == outs.len() - 1,
        sync_report(sel, outcomes_view(outs), n) == ({
            let f = fail_message(kind_name(sel[j]), outs[j]->Err_0@);
            (
                Err::<Seq<Seq<char>>, Seq<char>>(f),
                info_lines(outcome_texts(outcomes_view(outs).drop_last())).push(("ERROR"@, f)),
            )
        }),
{
    if j < outs.len() - 1 {
        assert(outs[j] is Ok);
    }
}

} // verus!
