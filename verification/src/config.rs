//! The canonical configuration: the server definitions every client is
//! synchronized from, how they are read out of the configuration's JSON
//! document, and where that file is looked for.
use vstd::prelude::*;
use crate::fs_utils::{join_path, path_join, first_existing, first_present, reported};
use crate::env;
use crate::json::{Json, JsonV, get_member, json_view, items_view, members_view, lemma_items_view, lemma_members_view, lookup, has_key, lemma_lookup_index, lemma_lookup_none};
use crate::text::{concat3, str_eq, push_str, string_of};
use crate::json_text::{json_of_text, objects_sorted, keys_ascending, lex_lt, parse_json_result};

verus! {

/// One MCP server as the canonical configuration defines it.
pub struct ServerDefinition {
    pub command: Option<String>,
    pub args: Option<Vec<String>>,
    pub env: Option<Vec<(String, String)>>,
    pub url: Option<String>,
    pub server_url: Option<String>,
    pub server_type: Option<String>,
    pub settings: Option<Json>,
    pub enabled: Option<bool>,
    pub headers: Option<Vec<(String, String)>>,
    pub http_headers: Option<Vec<(String, String)>>,
    pub env_vars: Option<Vec<String>>,
}

/// The view of a `ServerDefinition`.
pub struct ServerDefinitionV {
    pub command: Option<Seq<char>>,
    pub args: Option<Seq<Seq<char>>>,
    pub env: Option<Seq<(Seq<char>, Seq<char>)>>,
    pub url: Option<Seq<char>>,
    pub server_url: Option<Seq<char>>,
    pub server_type: Option<Seq<char>>,
    pub settings: Option<JsonV>,
    pub enabled: Option<bool>,
    pub headers: Option<Seq<(Seq<char>, Seq<char>)>>,
    pub http_headers: Option<Seq<(Seq<char>, Seq<char>)>>,
    pub env_vars: Option<Seq<Seq<char>>>,
}

pub open spec fn opt_str(o: Option<String>) -> Option<Seq<char>> {
    match o {
        Some(s) => Some(s@),
        None => None,
    }
}

pub open spec fn strs(v: Seq<String>) -> Seq<Seq<char>> {
    v.map_values(|s: String| s@)
}

pub open spec fn opt_strs(o: Option<Vec<String>>) -> Option<Seq<Seq<char>>> {
    match o {
        Some(v) => Some(strs(v@)),
        None => None,
    }
}

pub open spec fn pairs(v: Seq<(String, String)>) -> Seq<(Seq<char>, Seq<char>)> {
    v.map_values(|p: (String, String)| (p.0@, p.1@))
}

pub open spec fn opt_pairs(o: Option<Vec<(String, String)>>) -> Option<Seq<(Seq<char>, Seq<char>)>> {
    match o {
        Some(v) => Some(pairs(v@)),
        None => None,
    }
}

pub open spec fn opt_json(o: Option<Json>) -> Option<JsonV> {
    match o {
        Some(j) => Some(j@),
        None => None,
    }
}

impl View for ServerDefinition {
    type V = ServerDefinitionV;

    open spec fn view(&self) -> ServerDefinitionV {
        ServerDefinitionV {
            command: opt_str(self.command),
            args: opt_strs(self.args),
            env: opt_pairs(self.env),
            url: opt_str(self.url),
            server_url: opt_str(self.server_url),
            server_type: opt_str(self.server_type),
            settings: opt_json(self.settings),
            enabled: self.enabled,
            headers: opt_pairs(self.headers),
            http_headers: opt_pairs(self.http_headers),
            env_vars: opt_strs(self.env_vars),
        }
    }
}

impl ServerDefinitionV {
    /// The endpoint of a remote server: `url`, else `serverUrl`.
    pub open spec fn remote_url(self) -> Option<Seq<char>> {
        match self.url {
            Some(u) => Some(u),
            None => self.server_url,
        }
    }

    /// The HTTP headers: `headers`, else `http_headers`.
    pub open spec fn header_map(self) -> Option<Seq<(Seq<char>, Seq<char>)>> {
        match self.headers {
            Some(h) => Some(h),
            None => self.http_headers,
        }
    }
}

impl ServerDefinition {
    /// Return effective URL if this is a remote server: `url`, else `serverUrl`.
    pub fn get_url(&self) -> (r: Option<&str>)
        ensures
            match r {
                Some(u) => self@.remote_url() == Some(u@),
                None => self@.remote_url() is None,
            },
    {
        match &self.url {
            Some(u) => Some(u.as_str()),
            None => match &self.server_url {
                Some(u) => Some(u.as_str()),
                None => None,
            },
        }
    }

    /// Return HTTP headers if configured: `headers`, else `http_headers`.
    pub fn get_headers(&self) -> (r: Option<&Vec<(String, String)>>)
        ensures
            match r {
                Some(h) => self@.header_map() == Some(pairs(h@)),
                None => self@.header_map() is None,
            },
    {
        match &self.headers {
            Some(h) => Some(h),
            None => match &self.http_headers {
                Some(h) => Some(h),
                None => None,
            },
        }
    }

    /// True if server is configured as a remote URL endpoint.
    pub fn is_remote(&self) -> (r: bool)
        ensures
            r == self@.remote_url() is Some,
    {
        self.get_url().is_some()
    }
}

/// The canonical configuration: named servers, in order, and the optional
/// `inputs` value passed on to clients that support it.
pub struct CanonicalConfig {
    pub servers: Vec<(String, ServerDefinition)>,
    pub inputs: Option<Json>,
}

/// The view of a `CanonicalConfig`.
pub struct CanonicalConfigV {
    pub servers: Seq<(Seq<char>, ServerDefinitionV)>,
    pub inputs: Option<JsonV>,
}

pub open spec fn servers_view(s: Seq<(String, ServerDefinition)>) -> Seq<(Seq<char>, ServerDefinitionV)> {
    s.map_values(|p: (String, ServerDefinition)| (p.0@, p.1@))
}

impl View for CanonicalConfig {
    type V = CanonicalConfigV;

    open spec fn view(&self) -> CanonicalConfigV {
        CanonicalConfigV { servers: servers_view(self.servers@), inputs: opt_json(self.inputs) }
    }
}

/// No two entries share a key.
pub open spec fn keys_unique<V>(m: Seq<(Seq<char>, V)>) -> bool {
    forall|i: int, j: int| 0 <= i < j < m.len() ==> m[i].0 != m[j].0
}

impl CanonicalConfigV {
    /// The configuration's invariant: servers are ordered by name, each name
    /// once (as the sorted map of the configuration file holds them).
    pub open spec fn wf(self) -> bool {
        crate::json_text::keys_ascending(self.servers)
    }

    /// Whether a server of that name is defined.
    pub open spec fn defines(self, name: Seq<char>) -> bool {
        has_key(self.servers, name)
    }
}

impl CanonicalConfig {
    /// Whether a server of that name is defined.
    pub fn contains_server(&self, name: &str) -> (r: bool)
        ensures
            r == self@.defines(name@),
    {
        let mut i: usize = 0;
        while i < self.servers.len()
            invariant
                i <= self.servers@.len(),
                forall|t: int| 0 <= t < i ==> self.servers@[t].0@ != name@,
            decreases self.servers@.len() - i,
        {
            if str_eq(self.servers[i].0.as_str(), name) {
                assert(self@.servers[i as int].0 == name@);
                return true;
            }
            i = i + 1;
        }
        assert forall|t: int| 0 <= t < self@.servers.len() implies #[trigger] self@.servers[t].0 != name@ by {
            assert(self@.servers[t].0 == self.servers@[t].0@);
        }
        false
    }

    /// The definition of the server with that name.
    pub fn server(&self, name: &str) -> (r: Option<&ServerDefinition>)
        ensures
            match r {
                Some(s) => lookup(self@.servers, name@) == Some(s@),
                None => lookup(self@.servers, name@) is None,
            },
    {
        let mut i: usize = 0;
        while i < self.servers.len()
            invariant
                i <= self.servers@.len(),
                forall|t: int| 0 <= t < i ==> self.servers@[t].0@ != name@,
            decreases self.servers@.len() - i,
        {
            if str_eq(self.servers[i].0.as_str(), name) {
                proof {
                    lemma_lookup_index(self@.servers, name@, i as int);
                }
                return Some(&self.servers[i].1);
            }
            i = i + 1;
        }
        proof {
            lemma_lookup_none(self@.servers, name@);
        }
        None
    }
}

// ---------------------------------------------------------------------------
// Reading server definitions out of JSON.
// ---------------------------------------------------------------------------

/// A text field: absent or `null` give `None`, a string gives its text, and
/// anything else makes the definition invalid (outer `None`).
pub open spec fn field_str(o: Seq<(Seq<char>, JsonV)>, k: Seq<char>) -> Option<Option<Seq<char>>> {
    match lookup(o, k) {
        None => Some(None),
        Some(JsonV::Null) => Some(None),
        Some(JsonV::Str(s)) => Some(Some(s)),
        _ => None,
    }
}

/// A flag field: absent or `null` give `None`, a boolean gives its value.
pub open spec fn field_bool(o: Seq<(Seq<char>, JsonV)>, k: Seq<char>) -> Option<Option<bool>> {
    match lookup(o, k) {
        None => Some(None),
        Some(JsonV::Null) => Some(None),
        Some(JsonV::Bool(b)) => Some(Some(b)),
        _ => None,
    }
}

/// A free-form field: absent or `null` give `None`, anything else is kept.
pub open spec fn field_any(o: Seq<(Seq<char>, JsonV)>, k: Seq<char>) -> Option<JsonV> {
    match lookup(o, k) {
        None => None,
        Some(JsonV::Null) => None,
        Some(v) => Some(v),
    }
}

/// Whether every item is a string.
pub open spec fn all_strs(a: Seq<JsonV>) -> bool {
    forall|i: int| 0 <= i < a.len() ==> (#[trigger] a[i]) is Str
}

/// The texts of a list of string values.
pub open spec fn str_items(a: Seq<JsonV>) -> Seq<Seq<char>> {
    a.map_values(|v: JsonV| v->Str_0)
}

/// A list-of-strings field.
pub open spec fn field_strs(o: Seq<(Seq<char>, JsonV)>, k: Seq<char>) -> Option<Option<Seq<Seq<char>>>> {
    match lookup(o, k) {
        None => Some(None),
        Some(JsonV::Null) => Some(None),
        Some(JsonV::Array(a)) => if all_strs(a) { Some(Some(str_items(a))) } else { None },
        _ => None,
    }
}

/// Whether every member value is a string.
pub open spec fn all_str_members(m: Seq<(Seq<char>, JsonV)>) -> bool {
    forall|i: int| 0 <= i < m.len() ==> (#[trigger] m[i]).1 is Str
}

/// The `(key, text)` pairs of an object whose values are strings.
pub open spec fn str_members(m: Seq<(Seq<char>, JsonV)>) -> Seq<(Seq<char>, Seq<char>)> {
    m.map_values(|p: (Seq<char>, JsonV)| (p.0, p.1->Str_0))
}

/// A string-to-string map field.
pub open spec fn field_map(o: Seq<(Seq<char>, JsonV)>, k: Seq<char>) -> Option<Option<Seq<(Seq<char>, Seq<char>)>>> {
    match lookup(o, k) {
        None => Some(None),
        Some(JsonV::Null) => Some(None),
        Some(JsonV::Object(m)) => if all_str_members(m) { Some(Some(str_members(m))) } else { None },
        _ => None,
    }
}

/// The server definition a JSON value describes, or `None` when it does
/// not match the schema (not an object, or a field of the wrong type).
/// Unknown members are ignored.
pub open spec fn decode_server(v: JsonV) -> Option<ServerDefinitionV> {
    match v {
        JsonV::Object(o) => {
            let command = field_str(o, "command"@);
            let args = field_strs(o, "args"@);
            let env = field_map(o, "env"@);
            let url = field_str(o, "url"@);
            let server_url = field_str(o, "serverUrl"@);
            let server_type = field_str(o, "type"@);
            let enabled = field_bool(o, "enabled"@);
            let headers = field_map(o, "headers"@);
            let http_headers = field_map(o, "http_headers"@);
            let env_vars = field_strs(o, "env_vars"@);
            if command is Some && args is Some && env is Some && url is Some && server_url is Some
                && server_type is Some && enabled is Some && headers is Some && http_headers is Some
                && env_vars is Some {
                Some(ServerDefinitionV {
                    command: command.unwrap(),
                    args: args.unwrap(),
                    env: env.unwrap(),
                    url: url.unwrap(),
                    server_url: server_url.unwrap(),
                    server_type: server_type.unwrap(),
                    settings: field_any(o, "settings"@),
                    enabled: enabled.unwrap(),
                    headers: headers.unwrap(),
                    http_headers: http_headers.unwrap(),
                    env_vars: env_vars.unwrap(),
                })
            } else {
                None
            }
        },
        _ => None,
    }
}

/// The first `n` members decoded as servers, or the name of the first
/// member that is not a valid server definition.
pub open spec fn decode_servers(m: Seq<(Seq<char>, JsonV)>, n: int) -> Result<Seq<(Seq<char>, ServerDefinitionV)>, Seq<char>>
    decreases n,
{
    if n <= 0 {
        Ok(seq![])
    } else {
        match decode_servers(m, n - 1) {
            Err(e) => Err(e),
            Ok(done) => match decode_server(m[n - 1].1) {
                None => Err(m[n - 1].0),
                Some(s) => Ok(done.push((m[n - 1].0, s))),
            },
        }
    }
}

/// Once a member fails to decode, the decoding of every longer prefix
/// fails with the same name.
pub proof fn lemma_decode_servers_err(m: Seq<(Seq<char>, JsonV)>, i: int, n: int)
    requires
        i <= n,
        decode_servers(m, i) is Err,
    ensures
        decode_servers(m, n) == decode_servers(m, i),
    decreases n - i,
{
    if i < n {
        lemma_decode_servers_err(m, i, n - 1);
    }
}

/// The error text for the server `name` that does not match the schema.
pub open spec fn invalid_server_message(name: Seq<char>) -> Seq<char> {
    "Invalid server definitions: server \""@ + name + "\" does not match the server schema"@
}

/// The outcome once the servers object `m` has been found.
pub open spec fn canonical_from_servers(m: Seq<(Seq<char>, JsonV)>, inputs: Option<JsonV>) -> Result<CanonicalConfigV, Seq<char>> {
    match decode_servers(m, m.len() as int) {
        Ok(servers) => Ok(CanonicalConfigV { servers, inputs }),
        Err(name) => Err(invalid_server_message(name)),
    }
}

/// Decoding keeps the members' names, in order.
proof fn lemma_decode_servers_names(m: Seq<(Seq<char>, JsonV)>, n: int)
    requires
        0 <= n <= m.len(),
    ensures
        decode_servers(m, n) matches Ok(ss) ==> ss.len() == n
            && forall|i: int| 0 <= i < n ==> (#[trigger] ss[i]).0 == m[i].0,
    decreases n,
{
    if n > 0 {
        lemma_decode_servers_names(m, n - 1);
    }
}

/// A configuration read from a document whose objects have ascending keys
/// has its servers in name order, each name once.
proof fn lemma_canonical_sorted(root: JsonV)
    ensures
        objects_sorted(root) ==> (canonical_from_json(root) matches Ok(c) ==> c.wf()),
{
    if let JsonV::Object(o) = root {
        if objects_sorted(root) {
            crate::json::lemma_lookup_found(o, "servers"@);
            crate::json::lemma_lookup_found(o, "mcpServers"@);
            let sv = match lookup(o, "servers"@) {
                Some(v) => Some(v),
                None => lookup(o, "mcpServers"@),
            };
            if let Some(JsonV::Object(m)) = sv {
                assert(objects_sorted(JsonV::Object(m)));
                assert(keys_ascending(m));
                lemma_decode_servers_names(m, m.len() as int);
                if let Ok(ss) = decode_servers(m, m.len() as int) {
                    assert forall|i: int, j: int| 0 <= i < j < ss.len() implies lex_lt(#[trigger] ss[i].0, #[trigger] ss[j].0) by {
                        assert(ss[i].0 == m[i].0 && ss[j].0 == m[j].0);
                    }
                }
            }
        }
    }
}

/// The canonical configuration a JSON document describes, or the error.
pub open spec fn canonical_from_json(root: JsonV) -> Result<CanonicalConfigV, Seq<char>> {
    match root {
        JsonV::Object(o) => {
            let servers_val = match lookup(o, "servers"@) {
                Some(v) => Some(v),
                None => lookup(o, "mcpServers"@),
            };
            match servers_val {
                None => Err("Config file must contain either \"servers\" or \"mcpServers\""@),
                Some(JsonV::Object(m)) => canonical_from_servers(m, lookup(o, "inputs"@)),
                Some(_) => Err("Invalid server definitions: expected a map of servers"@),
            }
        },
        _ => Err("Root of config must be a JSON object"@),
    }
}

fn decode_str(v: Option<&Json>) -> (r: Result<Option<String>, ()>)
    ensures
        match r {
            Ok(s) => {
                &&& v matches Some(x) ==> (x@ is Null || x@ is Str)
                &&& opt_str(s) == match v {
                    Some(x) => match x@ {
                        JsonV::Str(t) => Some(t),
                        _ => None,
                    },
                    None => None,
                }
            },
            Err(_) => v matches Some(x) && !(x@ is Null || x@ is Str),
        },
{
    match v {
        None => Ok(None),
        Some(Json::Null) => Ok(None),
        Some(Json::Str(s)) => Ok(Some(s.clone())),
        Some(_) => Err(()),
    }
}

fn decode_bool(v: Option<&Json>) -> (r: Result<Option<bool>, ()>)
    ensures
        match r {
            Ok(b) => {
                &&& v matches Some(x) ==> (x@ is Null || x@ is Bool)
                &&& b == match v {
                    Some(x) => match x@ {
                        JsonV::Bool(t) => Some(t),
                        _ => None,
                    },
                    None => None,
                }
            },
            Err(_) => v matches Some(x) && !(x@ is Null || x@ is Bool),
        },
{
    match v {
        None => Ok(None),
        Some(Json::Null) => Ok(None),
        Some(Json::Bool(b)) => Ok(Some(*b)),
        Some(_) => Err(()),
    }
}

fn decode_strs(v: Option<&Json>) -> (r: Result<Option<Vec<String>>, ()>)
    ensures
        match r {
            Ok(s) => match v {
                None => s is None,
                Some(x) => match x@ {
                    JsonV::Null => s is None,
                    JsonV::Array(a) => all_strs(a) && opt_strs(s) == Some(str_items(a)),
                    _ => false,
                },
            },
            Err(_) => v matches Some(x) && match x@ {
                JsonV::Null => false,
                JsonV::Array(a) => !all_strs(a),
                _ => true,
            },
        },
{
    match v {
        None => Ok(None),
        Some(Json::Null) => Ok(None),
        Some(Json::Array(a)) => {
            let ghost av = items_view(a@);
            proof {
                lemma_items_view(a@);
            }
            let mut out: Vec<String> = Vec::new();
            let mut i: usize = 0;
            while i < a.len()
                invariant
                    i <= a@.len(),
                    av == items_view(a@),
                    v matches Some(x) && json_view(*x) == JsonV::Array(av),
                    av.len() == a@.len(),
                    forall|t: int| 0 <= t < a@.len() ==> #[trigger] av[t] == json_view(a@[t]),
                    out@.len() == i,
                    forall|t: int| 0 <= t < i ==> (#[trigger] av[t]) is Str && out@[t]@ == av[t]->Str_0,
                decreases a@.len() - i,
            {
                match &a[i] {
                    Json::Str(s) => {
                        out.push(s.clone());
                    },
                    _ => {
                        assert(!(av[i as int] is Str));
                        assert(!all_strs(av));
                        return Err(());
                    },
                }
                i = i + 1;
            }
            assert(strs(out@) =~= str_items(av));
            Ok(Some(out))
        },
        Some(_) => Err(()),
    }
}

fn decode_map(v: Option<&Json>) -> (r: Result<Option<Vec<(String, String)>>, ()>)
    ensures
        match r {
            Ok(s) => match v {
                None => s is None,
                Some(x) => match x@ {
                    JsonV::Null => s is None,
                    JsonV::Object(m) => all_str_members(m) && opt_pairs(s) == Some(str_members(m)),
                    _ => false,
                },
            },
            Err(_) => v matches Some(x) && match x@ {
                JsonV::Null => false,
                JsonV::Object(m) => !all_str_members(m),
                _ => true,
            },
        },
{
    match v {
        None => Ok(None),
        Some(Json::Null) => Ok(None),
        Some(Json::Object(o)) => {
            let ghost mv = members_view(o@);
            proof {
                lemma_members_view(o@);
            }
            let mut out: Vec<(String, String)> = Vec::new();
            let mut i: usize = 0;
            while i < o.len()
                invariant
                    i <= o@.len(),
                    mv == members_view(o@),
                    v matches Some(x) && json_view(*x) == JsonV::Object(mv),
                    mv.len() == o@.len(),
                    forall|t: int| 0 <= t < o@.len() ==> #[trigger] mv[t] == (o@[t].0@, json_view(o@[t].1)),
                    out@.len() == i,
                    forall|t: int| 0 <= t < i ==> (#[trigger] mv[t]).1 is Str && out@[t].0@ == mv[t].0 && out@[t].1@ == mv[t].1->Str_0,
                decreases o@.len() - i,
            {
                match &o[i].1 {
                    Json::Str(s) => {
                        out.push((o[i].0.clone(), s.clone()));
                    },
                    _ => {
                        assert(!(mv[i as int].1 is Str));
                        assert(!all_str_members(mv));
                        return Err(());
                    },
                }
                i = i + 1;
            }
            assert(pairs(out@) =~= str_members(mv));
            Ok(Some(out))
        },
        Some(_) => Err(()),
    }
}

/// Reads one server definition out of its JSON value.
pub fn decode_server_json(v: &Json) -> (r: Option<ServerDefinition>)
    ensures
        match r {
            Some(s) => decode_server(v@) == Some(s@),
            None => decode_server(v@) is None,
        },
{
    match v {
        Json::Object(_) => {
            let command = decode_str(v.get("command"));
            let args = decode_strs(v.get("args"));
            let env = decode_map(v.get("env"));
            let url = decode_str(v.get("url"));
            let server_url = decode_str(v.get("serverUrl"));
            let server_type = decode_str(v.get("type"));
            let enabled = decode_bool(v.get("enabled"));
            let headers = decode_map(v.get("headers"));
            let http_headers = decode_map(v.get("http_headers"));
            let env_vars = decode_strs(v.get("env_vars"));
            let settings = match v.get("settings") {
                None => None,
                Some(Json::Null) => None,
                Some(x) => Some(x.copy()),
            };
            proof {
                reveal_strlit("command");
                reveal_strlit("args");
                reveal_strlit("env");
                reveal_strlit("url");
                reveal_strlit("serverUrl");
                reveal_strlit("type");
                reveal_strlit("enabled");
                reveal_strlit("headers");
                reveal_strlit("http_headers");
                reveal_strlit("env_vars");
                reveal_strlit("settings");
            }
            match (command, args, env, url, server_url, server_type, enabled, headers, http_headers, env_vars) {
                (Ok(command), Ok(args), Ok(env), Ok(url), Ok(server_url), Ok(server_type), Ok(enabled), Ok(headers), Ok(http_headers), Ok(env_vars)) => {
                    Some(ServerDefinition {
                        command,
                        args,
                        env,
                        url,
                        server_url,
                        server_type,
                        settings,
                        enabled,
                        headers,
                        http_headers,
                        env_vars,
                    })
                },
                _ => None,
            }
        },
        _ => None,
    }
}

/// Reads the canonical configuration out of the parsed JSON document of the
/// configuration file: the servers are the members of `"servers"` (or, when
/// that is absent, of `"mcpServers"`), and `"inputs"` is carried along.
pub fn parse_canonical_value(root: &Json) -> (r: Result<CanonicalConfig, String>)
    ensures
        match r {
            Ok(c) => canonical_from_json(root@) == Ok::<CanonicalConfigV, Seq<char>>(c@),
            Err(e) => canonical_from_json(root@) == Err::<CanonicalConfigV, Seq<char>>(e@),
        },
        objects_sorted(root@) ==> (r matches Ok(c) ==> c@.wf()),
{
    proof {
        lemma_canonical_sorted(root@);
    }
    proof {
        reveal_strlit("servers");
        reveal_strlit("mcpServers");
        reveal_strlit("inputs");
    }
    match root {
        Json::Object(_) => {},
        _ => {
            return Err("Root of config must be a JSON object".to_owned());
        },
    }
    let servers_val = match root.get("servers") {
        Some(v) => v,
        None => match root.get("mcpServers") {
            Some(v) => v,
            None => {
                return Err("Config file must contain either \"servers\" or \"mcpServers\"".to_owned());
            },
        },
    };
    let members = match servers_val {
        Json::Object(m) => m,
        _ => {
            return Err("Invalid server definitions: expected a map of servers".to_owned());
        },
    };
    let ghost mv = members_view(members@);
    let ghost inputs_v = get_member(root@, "inputs"@);
    proof {
        lemma_members_view(members@);
        assert(canonical_from_json(root@) == canonical_from_servers(mv, inputs_v));
    }
    let mut servers: Vec<(String, ServerDefinition)> = Vec::new();
    assert(servers_view(servers@) =~= seq![]);
    let mut i: usize = 0;
    while i < members.len()
        invariant
            i <= members@.len(),
            mv == members_view(members@),
            mv.len() == members@.len(),
            canonical_from_json(root@) == canonical_from_servers(mv, inputs_v),
            inputs_v == get_member(root@, "inputs"@),
            forall|t: int| 0 <= t < members@.len() ==> #[trigger] mv[t] == (members@[t].0@, json_view(members@[t].1)),
            decode_servers(mv, i as int) == Ok::<Seq<(Seq<char>, ServerDefinitionV)>, Seq<char>>(servers_view(servers@)),
        decreases members@.len() - i,
    {
        match decode_server_json(&members[i].1) {
            Some(s) => {
                let ghost before = servers@;
                let ghost sv = s@;
                assert(decode_server(mv[i as int].1) == Some(sv));
                servers.push((members[i].0.clone(), s));
                assert(servers_view(servers@) =~= servers_view(before).push((mv[i as int].0, sv)));
                i = i + 1;
            },
            None => {
                let name = &members[i].0;
                proof {
                    assert(decode_server(mv[i as int].1) is None);
                    lemma_decode_servers_err(mv, i + 1, mv.len() as int);
                    reveal_strlit("Invalid server definitions: server \"");
                    reveal_strlit("\" does not match the server schema");
                }
                return Err(concat3("Invalid server definitions: server \"", name.as_str(), "\" does not match the server schema"));
            },
        }
    }
    let inputs = match root.get("inputs") {
        Some(v) => Some(v.copy()),
        None => None,
    };
    Ok(CanonicalConfig { servers, inputs })
}

// ---------------------------------------------------------------------------
// Where the canonical file is looked for.
// ---------------------------------------------------------------------------

/// The directory the canonical file lives in: `<config>/mcp`, or
/// The message for canonical text that is not JSON, with the parser's
/// message `e`.
pub open spec fn not_json_message(e: Seq<char>) -> Seq<char> {
    "Failed to parse JSON: "@ + e
}

/// Parse canonical config from string: the text's JSON document read as by
/// `parse_canonical_value`; an error when the text is not JSON.
pub fn parse_canonical_str(content: &str) -> (r: Result<CanonicalConfig, String>)
    ensures
        json_of_text(content@) is None ==> (r matches Err(e) && exists|t: Seq<char>| e@ == not_json_message(t)),
        json_of_text(content@) matches Some(v) ==> match r {
            Ok(c) => canonical_from_json(v) == Ok::<CanonicalConfigV, Seq<char>>(c@) && c@.wf(),
            Err(e) => canonical_from_json(v) == Err::<CanonicalConfigV, Seq<char>>(e@),
        },
{
    match parse_json_result(content) {
        Ok(root) => parse_canonical_value(&root),
        Err(e) => {
            proof {
                reveal_strlit("Failed to parse JSON: ");
            }
            let mut m: Vec<char> = Vec::new();
            push_str(&mut m, "Failed to parse JSON: ");
            push_str(&mut m, e.as_str());
            assert(m@ =~= not_json_message(e@));
            Err(string_of(m.as_slice()))
        },
    }
}

/// `<home>/.config/mcp` when there is no config directory.
pub open spec fn canonical_base(config_dir: Option<Seq<char>>, home: Option<Seq<char>>) -> Option<Seq<char>> {
    match config_dir {
        Some(d) => Some(path_join(d, "mcp"@)),
        None => match home {
            Some(h) => Some(path_join(h, ".config/mcp"@)),
            None => None,
        },
    }
}

/// The file names tried, in order.
pub open spec fn canonical_names() -> Seq<Seq<char>> {
    seq!["servers.json"@, "config.json"@, "mcp.json"@]
}

/// The candidate files, in the order they are tried: the three names in the
/// base directory, then (when a home directory is known) in
/// `<home>/.config/mcp`.
pub open spec fn canonical_candidates(base: Seq<char>, home: Option<Seq<char>>) -> Seq<Seq<char>> {
    let first = canonical_names().map_values(|n: Seq<char>| path_join(base, n));
    match home {
        Some(h) => first + canonical_names().map_values(|n: Seq<char>| path_join(path_join(h, ".config/mcp"@), n)),
        None => first,
    }
}

/// The view of a result holding text.
pub open spec fn text_result(r: Result<String, String>) -> Result<Seq<char>, Seq<char>> {
    match r {
        Ok(p) => Ok(p@),
        Err(e) => Err(e@),
    }
}

/// Where the canonical file is, given the platform directories and what the
/// existence check reported: the first candidate reported present, else
/// `servers.json` in the base directory even if it does not exist yet.
pub open spec fn canonical_resolution<F: Fn(&str) -> bool>(
    present: F,
    config_dir: Option<Seq<char>>,
    home: Option<Seq<char>>,
    r: Result<Seq<char>, Seq<char>>,
) -> bool {
    match canonical_base(config_dir, home) {
        None => r == Err::<Seq<char>, Seq<char>>("Could not determine user config directory"@),
        Some(base) => {
            let c = canonical_candidates(base, home);
            match r {
                Err(_) => false,
                Ok(p) => {
                    ||| exists|k: int| first_present(present, c, k) && p == c[k]
                    ||| (forall|j: int| 0 <= j < c.len() ==> reported(present, #[trigger] c[j], false)) && p == c[0]
                },
            }
        },
    }
}

/// Looks for the canonical file under the given platform directories.
pub fn canonical_path_in<F: Fn(&str) -> bool>(
    config_dir: Option<String>,
    home: Option<String>,
    present: &F,
) -> (r: Result<String, String>)
    requires
        forall|s: &str| present.requires((s,)),
    ensures
        canonical_resolution(*present, opt_str(config_dir), opt_str(home), text_result(r)),
{
    proof {
        reveal_strlit("mcp");
        reveal_strlit(".config/mcp");
        reveal_strlit("servers.json");
        reveal_strlit("config.json");
        reveal_strlit("mcp.json");
    }
    let base = match &config_dir {
        Some(d) => join_path(d.as_str(), "mcp"),
        None => match &home {
            Some(h) => join_path(h.as_str(), ".config/mcp"),
            None => {
                return Err("Could not determine user config directory".to_owned());
            },
        },
    };
    assert(canonical_base(opt_str(config_dir), opt_str(home)) == Some(base@));
    let mut cands: Vec<String> = Vec::new();
    cands.push(join_path(base.as_str(), "servers.json"));
    cands.push(join_path(base.as_str(), "config.json"));
    cands.push(join_path(base.as_str(), "mcp.json"));
    match &home {
        Some(h) => {
            let hm = join_path(h.as_str(), ".config/mcp");
            cands.push(join_path(hm.as_str(), "servers.json"));
            cands.push(join_path(hm.as_str(), "config.json"));
            cands.push(join_path(hm.as_str(), "mcp.json"));
        },
        None => {},
    }
    let ghost c = canonical_candidates(base@, opt_str(home));
    assert(cands@.map_values(|x: String| x@) =~= c);
    match first_existing(&cands, present) {
        Some(k) => {
            let p = cands[k].clone();
            assert(p@ == c[k as int]);
            Ok(p)
        },
        None => {
            assert forall|j: int| 0 <= j < c.len() implies reported(*present, #[trigger] c[j], false) by {
                assert(c[j] == cands@[j]@);
            }
            let p = cands[0].clone();
            Ok(p)
        },
    }
}

/// Find the canonical config path.
/// Looks at explicit path if passed, otherwise checks, asking `present`
/// whether each exists:
/// 1. <config dir>/mcp/servers.json
/// 2. <config dir>/mcp/config.json
/// 3. <config dir>/mcp/mcp.json
/// then the same names in ~/.config/mcp, and falls back to the first.
pub fn resolve_canonical_path<F: Fn(&str) -> bool>(custom_path: Option<String>, present: F) -> (r: Result<String, String>)
    requires
        forall|s: &str| present.requires((s,)),
    ensures
        match custom_path {
            Some(p) => r == Ok::<String, String>(p),
            None => exists|cd: Option<Seq<char>>, h: Option<Seq<char>>|
                canonical_resolution(present, cd, h, text_result(r)),
        },
{
    match custom_path {
        Some(p) => Ok(p),
        None => {
            let cd = env::config_dir();
            let h = env::home_dir();
            let r = canonical_path_in(cd, h, &present);
            assert(canonical_resolution(present, opt_str(cd), opt_str(h), text_result(r)));
            r
        },
    }
}

} // verus!
