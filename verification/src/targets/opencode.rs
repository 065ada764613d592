//! OpenCode: servers live under `mcp` in `opencode.json`, typed `local` or
//! `remote`, with the whole command line in one `command` array.
use vstd::prelude::*;
use crate::config::{CanonicalConfig, CanonicalConfigV, ServerDefinition, ServerDefinitionV, opt_str};
use crate::json::{Json, JsonV, members_view, lemma_members_view_push, push_member, str_value, strs_json, strs_value, map_json, lookup};
use crate::targets::{merged_flag, unmanaged, unmanaged_entries, append_entries, existing_members, recorded_flags, flags_view, read_existing, recorded_flag, opt_view, opt_member, opt_map_value, location, locate, put, put_member};
use crate::env;
use crate::targets::{existing_json, opt_text_view, parse_existing_text, prefixed};
use crate::json_text::{pretty_json, pretty_text, normal_form};

verus! {

/// The OpenCode client.
pub struct OpenCodeTarget {
    path: String,
}

impl View for OpenCodeTarget {
    type V = Seq<char>;

    /// The `opencode.json` file of this target.
    closed spec fn view(&self) -> Seq<char> {
        self.path@
    }
}

/// The default `opencode.json` location for the given platform directories.
pub open spec fn opencode_default_path(config_dir: Option<Seq<char>>, home: Option<Seq<char>>) -> Seq<char> {
    location(config_dir, "opencode/opencode.json"@, home, ".config/opencode/opencode.json"@, ".config/opencode/opencode.json"@)
}

/// The whole command line of a local server: the command, then its args.
pub open spec fn command_line(s: ServerDefinitionV) -> Seq<Seq<char>> {
    (match s.command {
        Some(c) => seq![c],
        None => seq![],
    }) + match s.args {
        Some(a) => a,
        None => seq![],
    }
}

/// The JSON object OpenCode gets for a canonical server: `enabled` (the
/// state recorded in OpenCode wins, then the definition's, then `true`);
/// then for a remote server `type: "remote"`, `url`, `headers` (the
/// definition's `headers`, else `http_headers`) and `environment` (its
/// `env`), each when defined; for a local server `type: "local"`, the
/// `command` array and `environment`.
pub open spec fn opencode_server_value(s: ServerDefinitionV, recorded: Option<bool>) -> JsonV {
    JsonV::Object(
        seq![("enabled"@, JsonV::Bool(merged_flag(recorded, s.enabled, true)))] + match s.remote_url() {
            Some(u) => seq![("type"@, JsonV::Str("remote"@)), ("url"@, JsonV::Str(u))]
                + opt_member("headers"@, opt_map_value(s.header_map()))
                + opt_member("environment"@, opt_map_value(s.env)),
            None => seq![("type"@, JsonV::Str("local"@)), ("command"@, strs_value(command_line(s)))]
                + opt_member("environment"@, opt_map_value(s.env)),
        },
    )
}

/// The new `mcp` object: every canonical server, then the servers OpenCode
/// already had that the configuration does not define.
pub open spec fn opencode_mcp(cfg: CanonicalConfigV, existing: Option<JsonV>) -> Seq<(Seq<char>, JsonV)> {
    let ex = existing_members(existing, "mcp"@);
    let states = recorded_flags(ex, "enabled"@, true);
    cfg.servers.map_values(|p: (Seq<char>, ServerDefinitionV)| (p.0, opencode_server_value(p.1, lookup(states, p.0))))
        + unmanaged(cfg, ex)
}

/// The file's new top-level value: the existing object with `mcp` set, or a
/// fresh object holding only `mcp` when there was no object.
pub open spec fn opencode_root(root: Option<JsonV>, mcp: Seq<(Seq<char>, JsonV)>) -> JsonV {
    match root {
        Some(JsonV::Object(o)) => JsonV::Object(put(o, "mcp"@, JsonV::Object(mcp))),
        _ => JsonV::Object(seq![("mcp"@, JsonV::Object(mcp))]),
    }
}

impl OpenCodeTarget {
    /// A target for the file at `path`, or, when none is given, the user's
    /// `opencode/opencode.json`.
    pub fn new(path: Option<String>) -> (r: Self)
        ensures
            match path {
                Some(p) => r@ == p@,
                None => exists|cd: Option<Seq<char>>, h: Option<Seq<char>>| r@ == opencode_default_path(cd, h),
            },
    {
        match path {
            Some(p) => {
                let r = OpenCodeTarget { path: p };
                assert(r@ == p@);
                r
            },
            None => {
                let cd = env::config_dir();
                let h = env::home_dir();
                let p = locate(&cd, "opencode/opencode.json", &h, ".config/opencode/opencode.json", ".config/opencode/opencode.json");
                let r = OpenCodeTarget { path: p };
                assert(r@ == opencode_default_path(opt_str(cd), opt_str(h)));
                r
            },
        }
    }

    /// The `opencode.json` file this target writes.
    pub fn path(&self) -> (r: &str)
        ensures
            r@ == self@,
    {
        self.path.as_str()
    }

    /// Read existing servers and enabled states (default `true`) from the
    /// parsed existing file, if it parsed.
    pub fn parse_existing(existing: Option<&Json>) -> (r: (Vec<(String, Json)>, Vec<(String, bool)>))
        ensures
            members_view(r.0@) == existing_members(opt_view(existing), "mcp"@),
            flags_view(r.1@) == recorded_flags(existing_members(opt_view(existing), "mcp"@), "enabled"@, true),
    {
        read_existing(existing, "mcp", "enabled", true)
    }

    /// The JSON value OpenCode gets for one canonical server.
    pub fn server_value(server: &ServerDefinition, recorded: Option<bool>) -> (r: Json)
        ensures
            r@ == opencode_server_value(server@, recorded),
    {
        proof {
            reveal_strlit("enabled");
            reveal_strlit("type");
            reveal_strlit("remote");
            reveal_strlit("local");
            reveal_strlit("url");
            reveal_strlit("headers");
            reveal_strlit("environment");
            reveal_strlit("command");
        }
        let ghost sv = server@;
        let enabled = match recorded {
            Some(b) => b,
            None => match server.enabled {
                Some(b) => b,
                None => true,
            },
        };
        let mut obj: Vec<(String, Json)> = Vec::new();
        assert(members_view(obj@) =~= seq![]);
        push_member(&mut obj, "enabled", Json::Bool(enabled));
        let ghost head = members_view(obj@);
        match server.get_url() {
            Some(u) => {
                push_member(&mut obj, "type", str_value("remote"));
                push_member(&mut obj, "url", str_value(u));
                let ghost mid = members_view(obj@);
                match server.get_headers() {
                    Some(h) => push_member(&mut obj, "headers", map_json(h)),
                    None => {},
                }
                let ghost mid2 = members_view(obj@);
                assert(mid2 == mid + opt_member("headers"@, opt_map_value(sv.header_map())));
                match &server.env {
                    Some(e) => push_member(&mut obj, "environment", map_json(e)),
                    None => {},
                }
                assert(members_view(obj@) =~= head + (seq![("type"@, JsonV::Str("remote"@)), ("url"@, JsonV::Str(u@))]
                    + opt_member("headers"@, opt_map_value(sv.header_map()))
                    + opt_member("environment"@, opt_map_value(sv.env))));
            },
            None => {
                push_member(&mut obj, "type", str_value("local"));
                let mut cmd: Vec<String> = Vec::new();
                match &server.command {
                    Some(c) => cmd.push(c.clone()),
                    None => {},
                }
                match &server.args {
                    Some(a) => {
                        let mut k: usize = 0;
                        let ghost base = cmd@;
                        while k < a.len()
                            invariant
                                k <= a@.len(),
                                cmd@ == base + a@.subrange(0, k as int),
                            decreases a@.len() - k,
                        {
                            cmd.push(a[k].clone());
                            k = k + 1;
                            assert(cmd@ =~= base + a@.subrange(0, k as int));
                        }
                        assert(a@.subrange(0, a@.len() as int) =~= a@);
                    },
                    None => {},
                }
                assert(cmd@.map_values(|x: String| x@) =~= command_line(sv));
                push_member(&mut obj, "command", strs_json(&cmd));
                match &server.env {
                    Some(e) => push_member(&mut obj, "environment", map_json(e)),
                    None => {},
                }
                assert(members_view(obj@) =~= head + (seq![("type"@, JsonV::Str("local"@)), ("command"@, strs_value(command_line(sv)))]
                    + opt_member("environment"@, opt_map_value(sv.env))));
            },
        }
        let r = Json::Object(obj);
        assert(r@ =~= opencode_server_value(sv, recorded));
        r
    }

    /// Build the updated `mcp` object for OpenCode from the configuration
    /// and the parsed existing file, if it parsed.
    /// Safe mode: only touches canonical servers; unmanaged servers in
    /// OpenCode are preserved intact.
    pub fn build_mcp_map(&self, config: &CanonicalConfig, existing: Option<&Json>) -> (r: Vec<(String, Json)>)
        ensures
            members_view(r@) == opencode_mcp(config@, opt_view(existing)),
    {
        let (existing_servers, existing_states) = Self::parse_existing(existing);
        let ghost cv = config@;
        let ghost states = flags_view(existing_states@);
        let mut servers: Vec<(String, Json)> = Vec::new();
        let mut i: usize = 0;
        assert(members_view(servers@) =~= seq![]);
        while i < config.servers.len()
            invariant
                i <= config.servers@.len(),
                cv == config@,
                states == flags_view(existing_states@),
                members_view(servers@) == cv.servers.subrange(0, i as int).map_values(
                    |p: (Seq<char>, ServerDefinitionV)| (p.0, opencode_server_value(p.1, lookup(states, p.0))),
                ),
            decreases config.servers@.len() - i,
        {
            let recorded = recorded_flag(&existing_states, config.servers[i].0.as_str());
            let v = Self::server_value(&config.servers[i].1, recorded);
            let nm = config.servers[i].0.clone();
            proof {
                lemma_members_view_push(servers@, (nm, v));
            }
            servers.push((nm, v));
            i = i + 1;
            assert(members_view(servers@) =~= cv.servers.subrange(0, i as int).map_values(
                |p: (Seq<char>, ServerDefinitionV)| (p.0, opencode_server_value(p.1, lookup(states, p.0))),
            ));
        }
        assert(cv.servers.subrange(0, cv.servers.len() as int) =~= cv.servers);
        let rest = unmanaged_entries(config, &existing_servers);
        append_entries(&mut servers, &rest);
        servers
    }

    /// The file's new top-level value: `root` (the parsed existing file, if
    /// any) with its `mcp` member set to the new object.
    pub fn with_mcp(root: Option<Json>, mcp: Vec<(String, Json)>) -> (r: Json)
        ensures
            r@ == opencode_root(match root {
                Some(j) => Some(j@),
                None => None,
            }, members_view(mcp@)),
    {
        proof {
            reveal_strlit("mcp");
        }
        match root {
            Some(Json::Object(o)) => {
                let mut o = o;
                put_member(&mut o, "mcp", Json::Object(mcp));
                Json::Object(o)
            },
            _ => {
                let mut o: Vec<(String, Json)> = Vec::new();
                assert(members_view(o@) =~= seq![]);
                push_member(&mut o, "mcp", Json::Object(mcp));
                let r = Json::Object(o);
                assert(members_view(o@) =~= seq![("mcp"@, JsonV::Object(members_view(mcp@)))]);
                r
            },
        }
    }

    /// The new file text: the `mcp` object built over the existing file text,
    /// set in the existing top-level object (a new object when there is no
    /// file); an error when the existing text is not JSON or printing fails.
    pub fn new_file_text(&self, config: &CanonicalConfig, existing: Option<&str>) -> (r: Result<String, String>)
        ensures
            match existing {
                Some(t) if crate::json_text::json_of_text(t@) is None => r is Err,
                _ => {
                    let root = match existing {
                        Some(t) => crate::json_text::json_of_text(t@)->Some_0,
                        None => JsonV::Object(seq![]),
                    };
                    let d = opencode_root(Some(root), opencode_mcp(config@, existing_json(opt_text_view(existing))));
                    match r {
                        Ok(t) => pretty_text(normal_form(d)) == Some(t@),
                        Err(_) => pretty_text(normal_form(d)) is None,
                    }
                },
            },
    {
        let ex = parse_existing_text(existing);
        let mcp = self.build_mcp_map(config, ex.as_ref());
        let root = match existing {
            Some(t) => match crate::json_text::parse_json_result(t) {
                Ok(j) => j,
                Err(e) => {
                    let m1 = prefixed("Invalid JSON in ", self.path.as_str());
                    let m2 = prefixed(m1.as_str(), ": ");
                    return Err(prefixed(m2.as_str(), e.as_str()));
                },
            },
            None => {
                let r = Json::Object(Vec::new());
                assert(r@ == JsonV::Object(seq![])) by {
                    assert(members_view(seq![]) =~= seq![]);
                }
                r
            },
        };
        let doc = Self::with_mcp(Some(root), mcp);
        match pretty_json(&doc) {
            Ok(t) => Ok(t),
            Err(e) => Err(prefixed("Failed to serialize OpenCode config: ", e.as_str())),
        }
    }
}

} // verus!
