//! Antigravity: servers live under `mcpServers` in
//! `~/.gemini/config/mcp_config.json`; remote servers use `serverUrl`, and an
//! inactive server carries `disabled: true`.
use vstd::prelude::*;
use crate::config::{CanonicalConfig, CanonicalConfigV, ServerDefinition, ServerDefinitionV, opt_str};
use crate::json::{Json, JsonV, members_view, lemma_members_view_push, push_member, str_value, lookup};
use crate::targets::{local_members, merged_flag, unmanaged, unmanaged_entries, append_entries, existing_members, recorded_flags, flags_view, read_existing, recorded_flag, opt_view, push_local_members, location, locate};
use crate::text::str_eq;
use crate::env;
use crate::targets::{existing_json, opt_text_view, parse_existing_text, prefixed};
use crate::json_text::{pretty_json, pretty_text, normal_form};

verus! {

/// The Antigravity client.
pub struct AntigravityTarget {
    path: String,
}

impl View for AntigravityTarget {
    type V = Seq<char>;

    /// The `mcp_config.json` file of this target.
    closed spec fn view(&self) -> Seq<char> {
        self.path@
    }
}

/// The default `mcp_config.json` location.
pub open spec fn antigravity_default_path(home: Option<Seq<char>>) -> Seq<char> {
    location(home, ".gemini/config/mcp_config.json"@, None, seq![], ".gemini/config/mcp_config.json"@)
}

/// The negation of an optional flag.
pub open spec fn negated(b: Option<bool>) -> Option<bool> {
    match b {
        Some(x) => Some(!x),
        None => None,
    }
}

/// Whether Antigravity keeps the server disabled: the state recorded in
/// Antigravity wins, then the definition's `enabled` (negated), then `false`.
pub open spec fn antigravity_disabled(s: ServerDefinitionV, recorded: Option<bool>) -> bool {
    merged_flag(recorded, negated(s.enabled), false)
}

/// The JSON object Antigravity gets for a canonical server: `serverUrl` for
/// a remote server, else `command`/`args`/`env` and `type: "stdio"` when
/// that type is declared; then `disabled: true` when the server is disabled.
pub open spec fn antigravity_server_value(s: ServerDefinitionV, recorded: Option<bool>) -> JsonV {
    JsonV::Object(
        match s.remote_url() {
            Some(u) => seq![("serverUrl"@, JsonV::Str(u))],
            None => local_members(s) + if s.server_type == Some("stdio"@) {
                seq![("type"@, JsonV::Str("stdio"@))]
            } else {
                seq![]
            },
        } + if antigravity_disabled(s, recorded) {
            seq![("disabled"@, JsonV::Bool(true))]
        } else {
            seq![]
        },
    )
}

/// The new document: `mcpServers` holds every canonical server, then the
/// servers Antigravity already had that the configuration does not define.
pub open spec fn antigravity_doc(cfg: CanonicalConfigV, existing: Option<JsonV>) -> JsonV {
    let ex = existing_members(existing, "mcpServers"@);
    let states = recorded_flags(ex, "disabled"@, false);
    JsonV::Object(seq![(
        "mcpServers"@,
        JsonV::Object(
            cfg.servers.map_values(|p: (Seq<char>, ServerDefinitionV)| (p.0, antigravity_server_value(p.1, lookup(states, p.0))))
                + unmanaged(cfg, ex),
        ),
    )])
}

impl AntigravityTarget {
    /// A target for the file at `path`, or, when none is given,
    /// `~/.gemini/config/mcp_config.json`.
    pub fn new(path: Option<String>) -> (r: Self)
        ensures
            match path {
                Some(p) => r@ == p@,
                None => exists|h: Option<Seq<char>>| r@ == antigravity_default_path(h),
            },
    {
        match path {
            Some(p) => {
                let r = AntigravityTarget { path: p };
                assert(r@ == p@);
                r
            },
            None => {
                let h = env::home_dir();
                let none: Option<String> = None;
                let p = locate(&h, ".gemini/config/mcp_config.json", &none, "", ".gemini/config/mcp_config.json");
                let r = AntigravityTarget { path: p };
                proof {
                    reveal_strlit("");
                }
                assert(r@ == antigravity_default_path(opt_str(h)));
                r
            },
        }
    }

    /// The `mcp_config.json` file this target writes.
    pub fn path(&self) -> (r: &str)
        ensures
            r@ == self@,
    {
        self.path.as_str()
    }

    /// Read existing servers and disabled states (default `false`) from the
    /// parsed existing file, if it parsed.
    pub fn parse_existing(existing: Option<&Json>) -> (r: (Vec<(String, Json)>, Vec<(String, bool)>))
        ensures
            members_view(r.0@) == existing_members(opt_view(existing), "mcpServers"@),
            flags_view(r.1@) == recorded_flags(existing_members(opt_view(existing), "mcpServers"@), "disabled"@, false),
    {
        read_existing(existing, "mcpServers", "disabled", false)
    }

    /// The JSON value Antigravity gets for one canonical server.
    pub fn server_value(server: &ServerDefinition, recorded: Option<bool>) -> (r: Json)
        ensures
            r@ == antigravity_server_value(server@, recorded),
    {
        proof {
            reveal_strlit("serverUrl");
            reveal_strlit("type");
            reveal_strlit("stdio");
            reveal_strlit("disabled");
        }
        let ghost sv = server@;
        let mut obj: Vec<(String, Json)> = Vec::new();
        assert(members_view(obj@) =~= seq![]);
        match server.get_url() {
            Some(u) => {
                push_member(&mut obj, "serverUrl", str_value(u));
                assert(members_view(obj@) =~= seq![("serverUrl"@, JsonV::Str(u@))]);
            },
            None => {
                push_local_members(&mut obj, server);
                let is_stdio = match &server.server_type {
                    Some(t) => str_eq(t.as_str(), "stdio"),
                    None => false,
                };
                assert(is_stdio == (sv.server_type == Some("stdio"@)));
                if is_stdio {
                    push_member(&mut obj, "type", str_value("stdio"));
                }
                assert(members_view(obj@) =~= local_members(sv) + if sv.server_type == Some("stdio"@) {
                    seq![("type"@, JsonV::Str("stdio"@))]
                } else {
                    seq![]
                });
            },
        }
        let ghost body = members_view(obj@);
        let disabled = match recorded {
            Some(b) => b,
            None => match server.enabled {
                Some(e) => !e,
                None => false,
            },
        };
        assert(disabled == antigravity_disabled(sv, recorded));
        if disabled {
            push_member(&mut obj, "disabled", Json::Bool(true));
        }
        assert(members_view(obj@) =~= body + if disabled { seq![("disabled"@, JsonV::Bool(true))] } else { seq![] });
        let r = Json::Object(obj);
        assert(r@ =~= antigravity_server_value(sv, recorded));
        r
    }

    /// Build the `mcpServers` document for Antigravity from the
    /// configuration and the parsed existing file, if it parsed.
    /// Safe mode: only touches canonical servers; unmanaged servers in
    /// Antigravity are preserved intact.
    pub fn build_doc(&self, config: &CanonicalConfig, existing: Option<&Json>) -> (r: Json)
        ensures
            r@ == antigravity_doc(config@, opt_view(existing)),
    {
        proof {
            reveal_strlit("mcpServers");
        }
        let (existing_servers, existing_disabled) = Self::parse_existing(existing);
        let ghost cv = config@;
        let ghost states = flags_view(existing_disabled@);
        let mut servers: Vec<(String, Json)> = Vec::new();
        let mut i: usize = 0;
        assert(members_view(servers@) =~= seq![]);
        while i < config.servers.len()
            invariant
                i <= config.servers@.len(),
                cv == config@,
                states == flags_view(existing_disabled@),
                members_view(servers@) == cv.servers.subrange(0, i as int).map_values(
                    |p: (Seq<char>, ServerDefinitionV)| (p.0, antigravity_server_value(p.1, lookup(states, p.0))),
                ),
            decreases config.servers@.len() - i,
        {
            let recorded = recorded_flag(&existing_disabled, config.servers[i].0.as_str());
            let v = Self::server_value(&config.servers[i].1, recorded);
            let nm = config.servers[i].0.clone();
            proof {
                lemma_members_view_push(servers@, (nm, v));
            }
            servers.push((nm, v));
            i = i + 1;
            assert(members_view(servers@) =~= cv.servers.subrange(0, i as int).map_values(
                |p: (Seq<char>, ServerDefinitionV)| (p.0, antigravity_server_value(p.1, lookup(states, p.0))),
            ));
        }
        assert(cv.servers.subrange(0, cv.servers.len() as int) =~= cv.servers);
        let rest = unmanaged_entries(config, &existing_servers);
        append_entries(&mut servers, &rest);
        let mut root: Vec<(String, Json)> = Vec::new();
        assert(members_view(root@) =~= seq![]);
        push_member(&mut root, "mcpServers", Json::Object(servers));
        let r = Json::Object(root);
        assert(r@ =~= antigravity_doc(cv, opt_view(existing)));
        r
    }

    /// The new file text: the document built over the existing file text
    /// (none, or not JSON: no existing document), pretty-printed; an error
    /// when printing fails.
    pub fn new_file_text(&self, config: &CanonicalConfig, existing: Option<&str>) -> (r: Result<String, String>)
        ensures
            match r {
                Ok(t) => pretty_text(normal_form(antigravity_doc(config@, existing_json(opt_text_view(existing))))) == Some(t@),
                Err(_) => pretty_text(normal_form(antigravity_doc(config@, existing_json(opt_text_view(existing))))) is None,
            },
    {
        let ex = parse_existing_text(existing);
        let doc = self.build_doc(config, ex.as_ref());
        match pretty_json(&doc) {
            Ok(t) => Ok(t),
            Err(e) => Err(prefixed("Failed to serialize Antigravity config: ", e.as_str())),
        }
    }
}

} // verus!
