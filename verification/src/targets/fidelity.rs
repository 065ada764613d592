//! What each client is given for a canonical server, read back member by
//! member: how the server is reached (its URL, or the command, arguments
//! and environment that start it) and its settings arrive exactly as the
//! definition gives them, whatever the client calls the members.
use vstd::prelude::*;
use crate::config::{CanonicalConfigV, ServerDefinitionV};
use crate::json::{JsonV, lookup, get_member, object_member, strs_value, lemma_lookup_index};
use crate::targets::{opt_member, opt_str_value, opt_strs_value, opt_map_value, local_members, merged_flag, unmanaged, existing_members, recorded_flags};
use crate::targets::zed::{zed_entries, zed_server_value};
use crate::targets::vscode::{vscode_doc, vscode_server_value};
use crate::targets::antigravity::{antigravity_doc, antigravity_server_value, antigravity_disabled};
use crate::targets::opencode::{opencode_mcp, opencode_server_value};
use crate::targets::laws::lemma_written_first;

verus! {

/// How a server is reached, as a client's object for it says, where the
/// client calls the URL member `url_key`: a remote server's URL and none of
/// `command`, `args`, `env`; for a local server no URL, and `command`,
/// `args` and `env` each present exactly when defined, equal to the
/// definition's.
pub open spec fn reached_as_defined(v: JsonV, url_key: Seq<char>, s: ServerDefinitionV) -> bool {
    match s.remote_url() {
        Some(u) => {
            &&& get_member(v, url_key) == Some(JsonV::Str(u))
            &&& get_member(v, "command"@) is None
            &&& get_member(v, "args"@) is None
            &&& get_member(v, "env"@) is None
        },
        None => {
            &&& get_member(v, url_key) is None
            &&& get_member(v, "command"@) == opt_str_value(s.command)
            &&& get_member(v, "args"@) == opt_strs_value(s.args)
            &&& get_member(v, "env"@) == opt_map_value(s.env)
        },
    }
}

/// The member names told apart by their length and first letter.
proof fn lemma_names()
    ensures
        "enabled"@.len() == 7 && "enabled"@[0] == 'e',
        "settings"@.len() == 8 && "settings"@[0] == 's',
        "url"@.len() == 3 && "url"@[0] == 'u',
        "command"@.len() == 7 && "command"@[0] == 'c',
        "args"@.len() == 4 && "args"@[0] == 'a',
        "env"@.len() == 3 && "env"@[0] == 'e',
        "type"@.len() == 4 && "type"@[0] == 't',
        "serverUrl"@.len() == 9 && "serverUrl"@[0] == 's',
        "disabled"@.len() == 8 && "disabled"@[0] == 'd',
        "environment"@.len() == 11 && "environment"@[0] == 'e',
        "headers"@.len() == 7 && "headers"@[0] == 'h',
{
    reveal_strlit("enabled");
    reveal_strlit("settings");
    reveal_strlit("url");
    reveal_strlit("command");
    reveal_strlit("args");
    reveal_strlit("env");
    reveal_strlit("type");
    reveal_strlit("serverUrl");
    reveal_strlit("disabled");
    reveal_strlit("environment");
    reveal_strlit("headers");
}

proof fn lemma_lookup_join(a: Seq<(Seq<char>, JsonV)>, b: Seq<(Seq<char>, JsonV)>, k: Seq<char>)
    ensures
        lookup(a + b, k) == if lookup(a, k) is Some { lookup(a, k) } else { lookup(b, k) },
    decreases a.len(),
{
    if a.len() == 0 {
        assert(a + b =~= b);
    } else {
        assert((a + b).drop_first() =~= a.drop_first() + b);
        assert((a + b)[0] == a[0]);
        lemma_lookup_join(a.drop_first(), b, k);
    }
}

proof fn lemma_lookup_opt(key: Seq<char>, v: Option<JsonV>, k: Seq<char>)
    ensures
        lookup(opt_member(key, v), k) == if k == key { v } else { None },
{
    match v {
        Some(x) => {
            let o = seq![(key, x)];
            let e = Seq::<(Seq<char>, JsonV)>::empty();
            assert(o.drop_first() =~= e);
            assert(lookup(e, k) is None);
            assert(o[0] == (key, x));
        },
        None => {},
    }
}

proof fn lemma_lookup_one(key: Seq<char>, x: JsonV, k: Seq<char>)
    ensures
        lookup(seq![(key, x)], k) == if k == key { Some(x) } else { None },
{
    lemma_lookup_opt(key, Some(x), k);
}

proof fn lemma_lookup_local(s: ServerDefinitionV, k: Seq<char>)
    ensures
        lookup(local_members(s), k) == if k == "command"@ {
            opt_str_value(s.command)
        } else if k == "args"@ {
            opt_strs_value(s.args)
        } else if k == "env"@ {
            opt_map_value(s.env)
        } else {
            None
        },
{
    lemma_names();
    let a = opt_member("command"@, opt_str_value(s.command));
    let b = opt_member("args"@, opt_strs_value(s.args));
    let c = opt_member("env"@, opt_map_value(s.env));
    lemma_lookup_join(a + b, c, k);
    lemma_lookup_join(a, b, k);
    lemma_lookup_opt("command"@, opt_str_value(s.command), k);
    lemma_lookup_opt("args"@, opt_strs_value(s.args), k);
    lemma_lookup_opt("env"@, opt_map_value(s.env), k);
}

/// What Zed is given for a server: its on/off state (Zed's recorded state,
/// else the definition's, else on), how it is reached exactly as defined
/// (`url`, or `command`/`args`/`env`), and its settings exactly as defined.
pub proof fn law_zed_value_as_defined(s: ServerDefinitionV, recorded: Option<bool>)
    ensures
        get_member(zed_server_value(s, recorded), "enabled"@) == Some(JsonV::Bool(merged_flag(recorded, s.enabled, true))),
        get_member(zed_server_value(s, recorded), "settings"@) == s.settings,
        reached_as_defined(zed_server_value(s, recorded), "url"@, s),
{
    lemma_names();
    let head = seq![("enabled"@, JsonV::Bool(merged_flag(recorded, s.enabled, true)))];
    let mid = match s.remote_url() {
        Some(u) => seq![("url"@, JsonV::Str(u))],
        None => local_members(s),
    };
    let tail = opt_member("settings"@, s.settings);
    assert forall|k: Seq<char>| #![auto] lookup(head + mid + tail, k) == if lookup(head, k) is Some {
        lookup(head, k)
    } else if lookup(mid, k) is Some {
        lookup(mid, k)
    } else {
        lookup(tail, k)
    } by {
        lemma_lookup_join(head + mid, tail, k);
        lemma_lookup_join(head, mid, k);
    }
    assert forall|k: Seq<char>| #![auto] lookup(head, k) == if k == "enabled"@ { Some(head[0].1) } else { None } by {
        lemma_lookup_one("enabled"@, head[0].1, k);
    }
    assert forall|k: Seq<char>| #![auto] lookup(tail, k) == if k == "settings"@ { s.settings } else { None } by {
        lemma_lookup_opt("settings"@, s.settings, k);
    }
    match s.remote_url() {
        Some(u) => {
            assert forall|k: Seq<char>| #![auto] lookup(mid, k) == if k == "url"@ { Some(JsonV::Str(u)) } else { None } by {
                lemma_lookup_one("url"@, JsonV::Str(u), k);
            }
        },
        None => {
            assert forall|k: Seq<char>| #![auto] lookup(mid, k) == lookup(local_members(s), k) by {}
            lemma_lookup_local(s, "command"@);
            lemma_lookup_local(s, "args"@);
            lemma_lookup_local(s, "env"@);
            lemma_lookup_local(s, "url"@);
            lemma_lookup_local(s, "enabled"@);
            lemma_lookup_local(s, "settings"@);
        },
    }
    assert(zed_server_value(s, recorded) == JsonV::Object(head + mid + tail));
}

proof fn lemma_lookup_two(k1: Seq<char>, x1: JsonV, k2: Seq<char>, x2: JsonV, k: Seq<char>)
    ensures
        lookup(seq![(k1, x1), (k2, x2)], k) == if k == k1 { Some(x1) } else if k == k2 { Some(x2) } else { None },
{
    assert(seq![(k1, x1), (k2, x2)] =~= seq![(k1, x1)] + seq![(k2, x2)]);
    lemma_lookup_join(seq![(k1, x1)], seq![(k2, x2)], k);
    lemma_lookup_one(k1, x1, k);
    lemma_lookup_one(k2, x2, k);
}

/// What VSCode is given for a server: its `type` (the declared one, else
/// `http` for a remote server and `stdio` for a local one) and how it is
/// reached exactly as defined (`url`, or `command`/`args`/`env`).
pub proof fn law_vscode_value_as_defined(s: ServerDefinitionV)
    ensures
        get_member(vscode_server_value(s), "type"@) == Some(JsonV::Str(match s.server_type {
            Some(t) => t,
            None => if s.remote_url() is Some { "http"@ } else { "stdio"@ },
        })),
        reached_as_defined(vscode_server_value(s), "url"@, s),
{
    lemma_names();
    let ty = JsonV::Str(match s.server_type {
        Some(t) => t,
        None => if s.remote_url() is Some { "http"@ } else { "stdio"@ },
    });
    match s.remote_url() {
        Some(u) => {
            let pair = seq![("type"@, ty), ("url"@, JsonV::Str(u))];
            let o = seq![
                ("type"@, JsonV::Str(match s.server_type { Some(t) => t, None => "http"@ })),
                ("url"@, JsonV::Str(u)),
            ];
            assert(o[0] == pair[0]);
            assert(o =~= pair);
            assert(vscode_server_value(s) == JsonV::Object(pair));
            lemma_lookup_two("type"@, ty, "url"@, JsonV::Str(u), "type"@);
            lemma_lookup_two("type"@, ty, "url"@, JsonV::Str(u), "url"@);
            lemma_lookup_two("type"@, ty, "url"@, JsonV::Str(u), "command"@);
            lemma_lookup_two("type"@, ty, "url"@, JsonV::Str(u), "args"@);
            lemma_lookup_two("type"@, ty, "url"@, JsonV::Str(u), "env"@);
        },
        None => {
            let head = seq![("type"@, ty)];
            assert(vscode_server_value(s) == JsonV::Object(head + local_members(s)));
            assert forall|k: Seq<char>| #![auto] lookup(head + local_members(s), k) == if k == "type"@ {
                Some(ty)
            } else {
                lookup(local_members(s), k)
            } by {
                lemma_lookup_join(head, local_members(s), k);
                lemma_lookup_one("type"@, ty, k);
            }
            lemma_lookup_local(s, "command"@);
            lemma_lookup_local(s, "args"@);
            lemma_lookup_local(s, "env"@);
            lemma_lookup_local(s, "url"@);
        },
    }
}

/// What Antigravity is given for a server: how it is reached exactly as
/// defined (`serverUrl`, or `command`/`args`/`env`), `type: "stdio"` exactly
/// for a local server declared `stdio`, and `disabled: true` exactly when it
/// is disabled (Antigravity's recorded state, else the definition's).
pub proof fn law_antigravity_value_as_defined(s: ServerDefinitionV, recorded: Option<bool>)
    ensures
        reached_as_defined(antigravity_server_value(s, recorded), "serverUrl"@, s),
        get_member(antigravity_server_value(s, recorded), "url"@) is None,
        get_member(antigravity_server_value(s, recorded), "type"@)
            == if s.remote_url() is None && s.server_type == Some("stdio"@) { Some(JsonV::Str("stdio"@)) } else { None },
        get_member(antigravity_server_value(s, recorded), "disabled"@)
            == if antigravity_disabled(s, recorded) { Some(JsonV::Bool(true)) } else { None },
{
    lemma_names();
    let dis = if antigravity_disabled(s, recorded) { seq![("disabled"@, JsonV::Bool(true))] } else { seq![] };
    let disv = if antigravity_disabled(s, recorded) { Some(JsonV::Bool(true)) } else { None };
    assert(dis == opt_member("disabled"@, disv));
    let body = match s.remote_url() {
        Some(u) => seq![("serverUrl"@, JsonV::Str(u))],
        None => local_members(s) + if s.server_type == Some("stdio"@) {
            seq![("type"@, JsonV::Str("stdio"@))]
        } else {
            seq![]
        },
    };
    assert(antigravity_server_value(s, recorded) == JsonV::Object(body + dis));
    assert forall|k: Seq<char>| #![auto] lookup(body + dis, k) == if lookup(body, k) is Some {
        lookup(body, k)
    } else if k == "disabled"@ {
        disv
    } else {
        None
    } by {
        lemma_lookup_join(body, dis, k);
        lemma_lookup_opt("disabled"@, disv, k);
    }
    match s.remote_url() {
        Some(u) => {
            assert forall|k: Seq<char>| #![auto] lookup(body, k) == if k == "serverUrl"@ { Some(JsonV::Str(u)) } else { None } by {
                lemma_lookup_one("serverUrl"@, JsonV::Str(u), k);
            }
        },
        None => {
            let tv = if s.server_type == Some("stdio"@) { Some(JsonV::Str("stdio"@)) } else { None };
            let typ = if s.server_type == Some("stdio"@) { seq![("type"@, JsonV::Str("stdio"@))] } else { seq![] };
            assert(typ == opt_member("type"@, tv));
            assert forall|k: Seq<char>| #![auto] lookup(body, k) == if lookup(local_members(s), k) is Some {
                lookup(local_members(s), k)
            } else if k == "type"@ {
                tv
            } else {
                None
            } by {
                lemma_lookup_join(local_members(s), typ, k);
                lemma_lookup_opt("type"@, tv, k);
            }
            lemma_lookup_local(s, "command"@);
            lemma_lookup_local(s, "args"@);
            lemma_lookup_local(s, "env"@);
            lemma_lookup_local(s, "url"@);
            lemma_lookup_local(s, "serverUrl"@);
            lemma_lookup_local(s, "type"@);
            lemma_lookup_local(s, "disabled"@);
        },
    }
}

/// The command line OpenCode starts a local server with: the command, then
/// the arguments, each part when defined.
pub open spec fn launch_line(s: ServerDefinitionV) -> Seq<Seq<char>> {
    match (s.command, s.args) {
        (Some(c), Some(a)) => seq![c] + a,
        (Some(c), None) => seq![c],
        (None, Some(a)) => a,
        (None, None) => seq![],
    }
}

/// What OpenCode is given for a server: its on/off state (OpenCode's
/// recorded state, else the definition's, else on); for a remote server
/// `type: "remote"`, the URL, the headers and the environment as defined;
/// for a local server `type: "local"`, the command followed by the
/// arguments as one `command` array, and the environment as defined.
pub proof fn law_opencode_value_as_defined(s: ServerDefinitionV, recorded: Option<bool>)
    ensures
        get_member(opencode_server_value(s, recorded), "enabled"@) == Some(JsonV::Bool(merged_flag(recorded, s.enabled, true))),
        get_member(opencode_server_value(s, recorded), "environment"@) == opt_map_value(s.env),
        s.remote_url() matches Some(u) ==> {
            &&& get_member(opencode_server_value(s, recorded), "type"@) == Some(JsonV::Str("remote"@))
            &&& get_member(opencode_server_value(s, recorded), "url"@) == Some(JsonV::Str(u))
            &&& get_member(opencode_server_value(s, recorded), "headers"@) == opt_map_value(s.header_map())
            &&& get_member(opencode_server_value(s, recorded), "command"@) is None
        },
        s.remote_url() is None ==> {
            &&& get_member(opencode_server_value(s, recorded), "type"@) == Some(JsonV::Str("local"@))
            &&& get_member(opencode_server_value(s, recorded), "command"@) == Some(strs_value(launch_line(s)))
            &&& get_member(opencode_server_value(s, recorded), "url"@) is None
        },
{
    lemma_names();
    let head = seq![("enabled"@, JsonV::Bool(merged_flag(recorded, s.enabled, true)))];
    let envm = opt_member("environment"@, opt_map_value(s.env));
    assert forall|k: Seq<char>| #![auto] lookup(head, k) == if k == "enabled"@ { Some(head[0].1) } else { None } by {
        lemma_lookup_one("enabled"@, head[0].1, k);
    }
    assert forall|k: Seq<char>| #![auto] lookup(envm, k) == if k == "environment"@ { opt_map_value(s.env) } else { None } by {
        lemma_lookup_opt("environment"@, opt_map_value(s.env), k);
    }
    match s.remote_url() {
        Some(u) => {
            let two = seq![("type"@, JsonV::Str("remote"@)), ("url"@, JsonV::Str(u))];
            let hdr = opt_member("headers"@, opt_map_value(s.header_map()));
            let rest = two + hdr + envm;
            assert(opencode_server_value(s, recorded) == JsonV::Object(head + rest));
            assert forall|k: Seq<char>| #![auto] lookup(head + rest, k) == if k == "enabled"@ {
                Some(head[0].1)
            } else if k == "type"@ {
                Some(JsonV::Str("remote"@))
            } else if k == "url"@ {
                Some(JsonV::Str(u))
            } else if k == "headers"@ {
                opt_map_value(s.header_map())
            } else if k == "environment"@ {
                opt_map_value(s.env)
            } else {
                None
            } by {
                lemma_lookup_join(head, rest, k);
                lemma_lookup_join(two + hdr, envm, k);
                lemma_lookup_join(two, hdr, k);
                lemma_lookup_two("type"@, JsonV::Str("remote"@), "url"@, JsonV::Str(u), k);
                lemma_lookup_opt("headers"@, opt_map_value(s.header_map()), k);
            }
        },
        None => {
            assert(crate::targets::opencode::command_line(s) =~= launch_line(s));
            let cmd = strs_value(launch_line(s));
            let two = seq![("type"@, JsonV::Str("local"@)), ("command"@, cmd)];
            let rest = two + envm;
            assert(opencode_server_value(s, recorded) == JsonV::Object(head + rest));
            assert forall|k: Seq<char>| #![auto] lookup(head + rest, k) == if k == "enabled"@ {
                Some(head[0].1)
            } else if k == "type"@ {
                Some(JsonV::Str("local"@))
            } else if k == "command"@ {
                Some(cmd)
            } else if k == "environment"@ {
                opt_map_value(s.env)
            } else {
                None
            } by {
                lemma_lookup_join(head, rest, k);
                lemma_lookup_join(two, envm, k);
                lemma_lookup_two("type"@, JsonV::Str("local"@), "command"@, cmd, k);
            }
        },
    }
}

/// Every canonical server's entry in Zed's merged `context_servers` is
/// reached exactly as defined and carries the definition's settings.
pub proof fn law_zed_entries_as_defined(
    cfg: CanonicalConfigV,
    existing: Seq<(Seq<char>, JsonV)>,
    states: Seq<(Seq<char>, bool)>,
    i: int,
)
    requires
        cfg.wf(),
        0 <= i < cfg.servers.len(),
    ensures
        lookup(zed_entries(cfg, existing, states), cfg.servers[i].0) matches Some(v)
            && get_member(v, "settings"@) == cfg.servers[i].1.settings
            && reached_as_defined(v, "url"@, cfg.servers[i].1),
{
    let m = cfg.servers.map_values(|p: (Seq<char>, ServerDefinitionV)| (p.0, zed_server_value(p.1, lookup(states, p.0))));
    let u = unmanaged(cfg, existing);
    lemma_written_first(cfg, m, u, i);
    lemma_lookup_index(m + u, cfg.servers[i].0, i);
    law_zed_value_as_defined(cfg.servers[i].1, lookup(states, cfg.servers[i].0));
}

/// Every canonical server's entry in VSCode's `servers` has its type and is
/// reached exactly as defined.
pub proof fn law_vscode_doc_as_defined(cfg: CanonicalConfigV, existing: Option<JsonV>, i: int)
    requires
        cfg.wf(),
        0 <= i < cfg.servers.len(),
    ensures
        object_member(vscode_doc(cfg, existing), "servers"@) matches Some(o)
            && lookup(o, cfg.servers[i].0) matches Some(v)
            && get_member(v, "type"@) == Some(JsonV::Str(match cfg.servers[i].1.server_type {
                Some(t) => t,
                None => if cfg.servers[i].1.remote_url() is Some { "http"@ } else { "stdio"@ },
            }))
            && reached_as_defined(v, "url"@, cfg.servers[i].1),
{
    let m = cfg.servers.map_values(|p: (Seq<char>, ServerDefinitionV)| (p.0, vscode_server_value(p.1)));
    let u = unmanaged(cfg, existing_members(existing, "servers"@));
    lemma_written_first(cfg, m, u, i);
    lemma_lookup_index(m + u, cfg.servers[i].0, i);
    law_vscode_value_as_defined(cfg.servers[i].1);
}

/// Every canonical server's entry in Antigravity's `mcpServers` is reached
/// exactly as defined.
pub proof fn law_antigravity_doc_as_defined(cfg: CanonicalConfigV, existing: Option<JsonV>, i: int)
    requires
        cfg.wf(),
        0 <= i < cfg.servers.len(),
    ensures
        object_member(antigravity_doc(cfg, existing), "mcpServers"@) matches Some(o)
            && lookup(o, cfg.servers[i].0) matches Some(v)
            && reached_as_defined(v, "serverUrl"@, cfg.servers[i].1),
{
    let ex = existing_members(existing, "mcpServers"@);
    let states = recorded_flags(ex, "disabled"@, false);
    let m = cfg.servers.map_values(|p: (Seq<char>, ServerDefinitionV)| (p.0, antigravity_server_value(p.1, lookup(states, p.0))));
    let u = unmanaged(cfg, ex);
    lemma_written_first(cfg, m, u, i);
    lemma_lookup_index(m + u, cfg.servers[i].0, i);
    law_antigravity_value_as_defined(cfg.servers[i].1, lookup(states, cfg.servers[i].0));
}

/// Every canonical server's entry in OpenCode's `mcp` starts it with the
/// command followed by the arguments (or reaches its URL) and carries its
/// environment, as defined.
pub proof fn law_opencode_mcp_as_defined(cfg: CanonicalConfigV, existing: Option<JsonV>, i: int)
    requires
        cfg.wf(),
        0 <= i < cfg.servers.len(),
    ensures
        lookup(opencode_mcp(cfg, existing), cfg.servers[i].0) matches Some(v)
            && get_member(v, "environment"@) == opt_map_value(cfg.servers[i].1.env)
            && (cfg.servers[i].1.remote_url() matches Some(u) ==> get_member(v, "url"@) == Some(JsonV::Str(u)))
            && (cfg.servers[i].1.remote_url() is None
                ==> get_member(v, "command"@) == Some(strs_value(launch_line(cfg.servers[i].1)))),
{
    let ex = existing_members(existing, "mcp"@);
    let states = recorded_flags(ex, "enabled"@, true);
    let m = cfg.servers.map_values(|p: (Seq<char>, ServerDefinitionV)| (p.0, opencode_server_value(p.1, lookup(states, p.0))));
    let u = unmanaged(cfg, ex);
    lemma_written_first(cfg, m, u, i);
    lemma_lookup_index(m + u, cfg.servers[i].0, i);
    law_opencode_value_as_defined(cfg.servers[i].1, lookup(states, cfg.servers[i].0));
}

} // verus!
