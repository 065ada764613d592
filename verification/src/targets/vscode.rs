//! VSCode (native Copilot Chat): servers live under `servers` in the user
//! profile's `mcp.json`, each with an explicit `type`; `inputs` is kept.
use vstd::prelude::*;
use crate::config::{CanonicalConfig, CanonicalConfigV, ServerDefinition, ServerDefinitionV, opt_str};
use crate::json::{Json, JsonV, members_view, lemma_members_view_push, push_member, str_value, get_member};
use crate::targets::{local_members, unmanaged, unmanaged_entries, append_entries, existing_members, opt_view, push_local_members, location, locate};
use crate::env;
use crate::targets::{existing_json, opt_text_view, parse_existing_text, prefixed};
use crate::json_text::{pretty_json, pretty_text, normal_form};

verus! {

/// The VSCode client.
pub struct VSCodeTarget {
    path: String,
}

impl View for VSCodeTarget {
    type V = Seq<char>;

    /// The `mcp.json` file of this target.
    closed spec fn view(&self) -> Seq<char> {
        self.path@
    }
}

/// The default `mcp.json` location for the given platform directories.
pub open spec fn vscode_default_path(config_dir: Option<Seq<char>>, home: Option<Seq<char>>) -> Seq<char> {
    location(config_dir, "Code/User/mcp.json"@, home, ".config/Code/User/mcp.json"@, ".config/Code/User/mcp.json"@)
}

/// The JSON object VSCode gets for a canonical server: a remote server is
/// `type` (the declared one, else `"http"`) and `url`; a local one is `type`
/// (the declared one, else `"stdio"`) then `command`/`args`/`env`.
pub open spec fn vscode_server_value(s: ServerDefinitionV) -> JsonV {
    match s.remote_url() {
        Some(u) => JsonV::Object(seq![
            ("type"@, JsonV::Str(match s.server_type { Some(t) => t, None => "http"@ })),
            ("url"@, JsonV::Str(u)),
        ]),
        None => JsonV::Object(
            seq![("type"@, JsonV::Str(match s.server_type { Some(t) => t, None => "stdio"@ }))]
                + local_members(s),
        ),
    }
}

/// The new `mcp.json` document: `servers` holds every canonical server, then
/// the servers the existing file has that the configuration does not define;
/// `inputs` is the configuration's, else the existing file's, else `[]`.
pub open spec fn vscode_doc(cfg: CanonicalConfigV, existing: Option<JsonV>) -> JsonV {
    let servers = cfg.servers.map_values(|p: (Seq<char>, ServerDefinitionV)| (p.0, vscode_server_value(p.1)))
        + unmanaged(cfg, existing_members(existing, "servers"@));
    let inputs = match cfg.inputs {
        Some(i) => i,
        None => match existing {
            Some(d) => match get_member(d, "inputs"@) {
                Some(i) => i,
                None => JsonV::Array(seq![]),
            },
            None => JsonV::Array(seq![]),
        },
    };
    JsonV::Object(seq![("servers"@, JsonV::Object(servers)), ("inputs"@, inputs)])
}

impl VSCodeTarget {
    /// A target for the file at `path`, or, when none is given, the user
    /// profile's `Code/User/mcp.json`.
    pub fn new(path: Option<String>) -> (r: Self)
        ensures
            match path {
                Some(p) => r@ == p@,
                None => exists|cd: Option<Seq<char>>, h: Option<Seq<char>>| r@ == vscode_default_path(cd, h),
            },
    {
        match path {
            Some(p) => {
                let r = VSCodeTarget { path: p };
                assert(r@ == p@);
                r
            },
            None => {
                let cd = env::config_dir();
                let h = env::home_dir();
                let p = locate(&cd, "Code/User/mcp.json", &h, ".config/Code/User/mcp.json", ".config/Code/User/mcp.json");
                let r = VSCodeTarget { path: p };
                assert(r@ == vscode_default_path(opt_str(cd), opt_str(h)));
                r
            },
        }
    }

    /// The `mcp.json` file this target writes.
    pub fn path(&self) -> (r: &str)
        ensures
            r@ == self@,
    {
        self.path.as_str()
    }

    /// The JSON value VSCode gets for one canonical server.
    pub fn server_value(server: &ServerDefinition) -> (r: Json)
        ensures
            r@ == vscode_server_value(server@),
    {
        proof {
            reveal_strlit("type");
            reveal_strlit("url");
            reveal_strlit("http");
            reveal_strlit("stdio");
        }
        let ghost sv = server@;
        let mut obj: Vec<(String, Json)> = Vec::new();
        assert(members_view(obj@) =~= seq![]);
        match server.get_url() {
            Some(u) => {
                let t = match &server.server_type {
                    Some(t) => str_value(t.as_str()),
                    None => str_value("http"),
                };
                push_member(&mut obj, "type", t);
                push_member(&mut obj, "url", str_value(u));
                assert(members_view(obj@) =~= seq![
                    ("type"@, JsonV::Str(match sv.server_type { Some(t) => t, None => "http"@ })),
                    ("url"@, JsonV::Str(u@)),
                ]);
            },
            None => {
                let t = match &server.server_type {
                    Some(t) => str_value(t.as_str()),
                    None => str_value("stdio"),
                };
                push_member(&mut obj, "type", t);
                assert(members_view(obj@) =~= seq![("type"@, JsonV::Str(match sv.server_type { Some(t) => t, None => "stdio"@ }))]);
                push_local_members(&mut obj, server);
            },
        }
        let r = Json::Object(obj);
        assert(r@ =~= vscode_server_value(sv));
        r
    }

    /// Build the full `mcp.json` document for VSCode from the configuration
    /// and the parsed existing file, if it parsed.
    /// Safe mode: only touches canonical servers; unmanaged servers in
    /// VSCode are preserved intact.
    pub fn build_doc(&self, config: &CanonicalConfig, existing: Option<&Json>) -> (r: Json)
        ensures
            r@ == vscode_doc(config@, opt_view(existing)),
    {
        proof {
            reveal_strlit("servers");
            reveal_strlit("inputs");
        }
        let ghost cv = config@;
        let mut servers: Vec<(String, Json)> = Vec::new();
        let mut i: usize = 0;
        assert(members_view(servers@) =~= seq![]);
        while i < config.servers.len()
            invariant
                i <= config.servers@.len(),
                cv == config@,
                members_view(servers@) == cv.servers.subrange(0, i as int).map_values(
                    |p: (Seq<char>, ServerDefinitionV)| (p.0, vscode_server_value(p.1)),
                ),
            decreases config.servers@.len() - i,
        {
            let v = Self::server_value(&config.servers[i].1);
            let nm = config.servers[i].0.clone();
            proof {
                lemma_members_view_push(servers@, (nm, v));
            }
            servers.push((nm, v));
            i = i + 1;
            assert(members_view(servers@) =~= cv.servers.subrange(0, i as int).map_values(
                |p: (Seq<char>, ServerDefinitionV)| (p.0, vscode_server_value(p.1)),
            ));
        }
        assert(cv.servers.subrange(0, cv.servers.len() as int) =~= cv.servers);
        let empty: Vec<(String, Json)> = Vec::new();
        assert(members_view(empty@) =~= seq![]);
        let ghost ex = existing_members(opt_view(existing), "servers"@);
        let existing_servers = match existing {
            Some(d) => match d.get("servers") {
                Some(Json::Object(o)) => {
                    assert(ex == members_view(o@));
                    unmanaged_entries(config, o)
                },
                _ => {
                    assert(ex == Seq::<(Seq<char>, JsonV)>::empty());
                    unmanaged_entries(config, &empty)
                },
            },
            None => unmanaged_entries(config, &empty),
        };
        let ghost canon = cv.servers.map_values(|p: (Seq<char>, ServerDefinitionV)| (p.0, vscode_server_value(p.1)));
        assert(members_view(existing_servers@) == unmanaged(cv, ex));
        append_entries(&mut servers, &existing_servers);
        assert(members_view(servers@) == canon + unmanaged(cv, ex));
        let inputs = match &config.inputs {
            Some(v) => v.copy(),
            None => match existing {
                Some(d) => match d.get("inputs") {
                    Some(v) => v.copy(),
                    None => Json::Array(Vec::new()),
                },
                None => Json::Array(Vec::new()),
            },
        };
        assert(inputs@ == match cv.inputs {
            Some(x) => x,
            None => match opt_view(existing) {
                Some(d) => match get_member(d, "inputs"@) {
                    Some(x) => x,
                    None => JsonV::Array(seq![]),
                },
                None => JsonV::Array(seq![]),
            },
        });
        let mut root: Vec<(String, Json)> = Vec::new();
        assert(members_view(root@) =~= seq![]);
        push_member(&mut root, "servers", Json::Object(servers));
        push_member(&mut root, "inputs", inputs);
        assert(members_view(root@) =~= seq![("servers"@, JsonV::Object(canon + unmanaged(cv, ex))), ("inputs"@, inputs@)]);
        let r = Json::Object(root);
        assert(r@ =~= vscode_doc(cv, opt_view(existing)));
        r
    }

    /// The new file text: the document built over the existing file text
    /// (none, or not JSON: no existing document), pretty-printed; an error
    /// when printing fails.
    pub fn new_file_text(&self, config: &CanonicalConfig, existing: Option<&str>) -> (r: Result<String, String>)
        ensures
            match r {
                Ok(t) => pretty_text(normal_form(vscode_doc(config@, existing_json(opt_text_view(existing))))) == Some(t@),
                Err(_) => pretty_text(normal_form(vscode_doc(config@, existing_json(opt_text_view(existing))))) is None,
            },
    {
        let ex = parse_existing_text(existing);
        let doc = self.build_doc(config, ex.as_ref());
        match pretty_json(&doc) {
            Ok(t) => Ok(t),
            Err(e) => Err(prefixed("Failed to serialize VSCode config: ", e.as_str())),
        }
    }
}

} // verus!
