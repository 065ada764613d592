//! Zed: servers live in the `context_servers` object of the JSONC
//! `settings.json`, which is spliced in place so that every other setting,
//! comment and blank line of the file is left untouched.
use vstd::prelude::*;
use vstd::string::StringSliceAdditionalSpecFns;
use vstd::utf8::{decode_utf8, encode_utf8, encode_utf8_valid_utf8, encode_utf8_decode_utf8, valid_utf8_split, is_char_boundary_iff_not_is_continuation_byte};
use crate::config::{CanonicalConfig, CanonicalConfigV, ServerDefinition, ServerDefinitionV};
use crate::fs_utils::{path_join, join_path, first_existing, first_present, reported};
use crate::json::{Json, JsonV, json_view, members_view, lemma_members_view, lemma_members_view_push, push_member, str_value};
use crate::jsonc::{context_servers_span, context_servers_span_bytes, strip_jsonc, strip_jsonc_chars, lemma_strip_ok_when_last_not_star, lemma_span_shape, lemma_span_boundaries, Lex};
use crate::targets::{local_members, merged_flag, unmanaged, unmanaged_entries, push_local_members, recorded_flag, flags_view, read_existing, existing_members, recorded_flags, opt_view, opt_member};
use crate::text::{chars_of, string_of, push_str, push_chars, is_whitespace, is_ws, concat3};
use crate::env;
use crate::json_text::{json_of_text, parse_json_text, pretty_json, pretty_text, normal_form};

verus! {

/// The Zed client.
pub struct ZedTarget {
    path: String,
}

impl View for ZedTarget {
    type V = Seq<char>;

    /// The settings file of this target.
    closed spec fn view(&self) -> Seq<char> {
        self.path@
    }
}

/// The JSON object Zed gets for a canonical server: `enabled` first (the
/// state recorded in Zed wins, then the definition's, then `true`), then
/// `url` for a remote server or `command`/`args`/`env` for a local one, then
/// `settings` when defined.
pub open spec fn zed_server_value(s: ServerDefinitionV, recorded: Option<bool>) -> JsonV {
    JsonV::Object(
        seq![("enabled"@, JsonV::Bool(merged_flag(recorded, s.enabled, true)))]
            + match s.remote_url() {
                Some(u) => seq![("url"@, JsonV::Str(u))],
                None => local_members(s),
            }
            + opt_member("settings"@, s.settings),
    )
}

/// The entries of the new `context_servers` object: every canonical server
/// in order, then the servers Zed already had that the configuration does
/// not define, unchanged.
pub open spec fn zed_entries(
    cfg: CanonicalConfigV,
    existing: Seq<(Seq<char>, JsonV)>,
    states: Seq<(Seq<char>, bool)>,
) -> Seq<(Seq<char>, JsonV)> {
    cfg.servers.map_values(|p: (Seq<char>, ServerDefinitionV)| (p.0, zed_server_value(p.1, crate::json::lookup(states, p.0))))
        + unmanaged(cfg, existing)
}

/// The position of the first `'\n'` at or after `k`, or the end.
pub open spec fn line_break(s: Seq<char>, k: int) -> int
    decreases s.len() - k,
{
    if k < 0 || k >= s.len() {
        s.len() as int
    } else if s[k] == '\n' {
        k
    } else {
        line_break(s, k + 1)
    }
}

pub proof fn lemma_line_break_bounds(s: Seq<char>, k: int)
    requires
        0 <= k <= s.len(),
    ensures
        k <= line_break(s, k) <= s.len(),
        line_break(s, k) < s.len() ==> s[line_break(s, k)] == '\n',
    decreases s.len() - k,
{
    if k < s.len() && s[k] != '\n' {
        lemma_line_break_bounds(s, k + 1);
        assert(line_break(s, k) == line_break(s, k + 1));
    }
}

/// The lines of `s[k..]` as `str::lines` yields them: split at `'\n'`, a
/// `'\r'` before the `'\n'` removed, no empty line after a final `'\n'`.
pub open spec fn lines_from(s: Seq<char>, k: int) -> Seq<Seq<char>>
    decreases s.len() + 1 - k,
{
    if k < 0 || k >= s.len() {
        seq![]
    } else {
        proof {
            lemma_line_break_bounds(s, k);
        }
        let e = line_break(s, k);
        let raw = s.subrange(k, e);
        let line = if e < s.len() && raw.len() > 0 && raw.last() == '\r' { raw.drop_last() } else { raw };
        seq![line] + lines_from(s, e + 1)
    }
}

/// The parts joined with `sep` between consecutive parts.
pub open spec fn join(parts: Seq<Seq<char>>, sep: Seq<char>) -> Seq<char>
    decreases parts.len(),
{
    if parts.len() == 0 {
        seq![]
    } else if parts.len() == 1 {
        parts[0]
    } else {
        join(parts.drop_last(), sep) + sep + parts.last()
    }
}

/// Every line after the first indented by `prefix`.
pub open spec fn reindented(text: Seq<char>, prefix: Seq<char>) -> Seq<char> {
    join(lines_from(text, 0), seq!['\n'] + prefix)
}

/// One member line of the rendered block: `    "<name>": <value text>` with
/// the value's continuation lines indented four more spaces.
pub open spec fn rendered_entry(name: Seq<char>, text: Seq<char>) -> Seq<char> {
    "    \""@ + name + "\": "@ + reindented(text, "    "@)
}

/// The rendered `"context_servers": { ... }` block.
pub open spec fn context_block(entries: Seq<(Seq<char>, Seq<char>)>) -> Seq<char> {
    "\"context_servers\": {\n"@ + join(
        entries.map_values(|e: (Seq<char>, Seq<char>)| rendered_entry(e.0, e.1)),
        ",\n"@,
    ) + "\n  }"@
}

/// `s` without its trailing white space (`str::trim_end`).
pub open spec fn trim_end(s: Seq<char>) -> Seq<char>
    decreases s.len(),
{
    if s.len() > 0 && is_ws(s.last()) {
        trim_end(s.drop_last())
    } else {
        s
    }
}

/// The position of the last `c` in `s`.
pub open spec fn last_index_of(s: Seq<char>, c: char) -> Option<int>
    decreases s.len(),
{
    if s.len() == 0 {
        None
    } else if s.last() == c {
        Some(s.len() - 1)
    } else {
        last_index_of(s.drop_last(), c)
    }
}

/// The settings text with the new block in place of the old one; when the
/// file has none, the block is added as the last member of the top-level
/// object, with a comma when one is needed; `None` when the text has no `}`.
pub open spec fn spliced_settings(content: Seq<char>, block: Seq<char>) -> Option<Seq<char>> {
    let b = encode_utf8(content);
    match context_servers_span(b) {
        Some((s, e)) => Some(decode_utf8(b.subrange(0, s)) + block + decode_utf8(b.subrange(e, b.len() as int))),
        None => match last_index_of(content, '}') {
            Some(j) => {
                let prefix = trim_end(content.subrange(0, j));
                let sep = if prefix.len() > 0 && (prefix.last() == '{' || prefix.last() == ',') {
                    "\n  "@
                } else {
                    ",\n  "@
                };
                Some(prefix + sep + block + "\n}\n"@)
            },
            None => None,
        },
    }
}

/// The settings files tried, in order, when no path is given.
pub open spec fn zed_candidates(config_dir: Option<Seq<char>>, home: Option<Seq<char>>) -> Seq<Seq<char>> {
    (match config_dir {
        Some(d) => seq![path_join(d, "zed/settings.json"@), path_join(d, "Zed/settings.json"@)],
        None => seq![],
    }) + (match home {
        Some(h) => seq![path_join(h, ".config/zed/settings.json"@)],
        None => seq![],
    })
}

/// The settings file used when none of the candidates exists.
pub open spec fn zed_fallback(config_dir: Option<Seq<char>>, home: Option<Seq<char>>, macos: bool) -> Seq<char> {
    match config_dir {
        Some(d) => path_join(d, if macos { "Zed/settings.json"@ } else { "zed/settings.json"@ }),
        None => match home {
            Some(h) => path_join(h, ".config/zed/settings.json"@),
            None => ".config/zed/settings.json"@,
        },
    }
}

/// The default settings file: the first candidate reported present, else
/// the fallback.
pub open spec fn zed_default_path<F: Fn(&str) -> bool>(
    present: F,
    config_dir: Option<Seq<char>>,
    home: Option<Seq<char>>,
    macos: bool,
    p: Seq<char>,
) -> bool {
    let c = zed_candidates(config_dir, home);
    ||| exists|k: int| first_present(present, c, k) && p == c[k]
    ||| (forall|j: int| 0 <= j < c.len() ==> reported(present, #[trigger] c[j], false)) && p == zed_fallback(config_dir, home, macos)
}

/// In a document whose objects have ascending keys, the members of an
/// object member have ascending keys.
pub proof fn lemma_sorted_member(doc: Option<JsonV>, key: Seq<char>)
    requires
        doc matches Some(d) ==> crate::json_text::objects_sorted(d),
    ensures
        crate::json_text::keys_ascending(existing_members(doc, key)),
{
    if let Some(d) = doc {
        if let JsonV::Object(o) = d {
            crate::json::lemma_lookup_found(o, key);
            if let Some(v) = crate::json::lookup(o, key) {
                let i = choose|i: int| 0 <= i < o.len() && o[i].0 == key && o[i].1 == v && forall|t: int| 0 <= t < i ==> o[t].0 != key;
                assert(crate::json_text::objects_sorted(o[i].1));
            }
        }
    }
}

/// The JSON document of the settings' `context_servers` block, wrapped in
/// braces and cleaned of comments, when there is a block and it parses.
pub open spec fn block_json(content: Seq<char>) -> Option<JsonV> {
    let b = encode_utf8(content);
    match context_servers_span(b) {
        None => None,
        Some((s, e)) => json_of_text(strip_jsonc(seq!['{'] + decode_utf8(b.subrange(s, e)) + seq!['}'])),
    }
}

/// A value's pretty text as `serde_json` writes it, `{}` if writing fails.
pub open spec fn pretty_or_braces(v: JsonV) -> Seq<char> {
    match pretty_text(normal_form(v)) {
        Some(t) => t,
        None => "{}"@,
    }
}

/// Each entry's name with its value's pretty text.
pub open spec fn rendered_values(e: Seq<(Seq<char>, JsonV)>) -> Seq<(Seq<char>, Seq<char>)> {
    e.map_values(|p: (Seq<char>, JsonV)| (p.0, pretty_or_braces(p.1)))
}

/// Zed's new settings text: the merged entries (the canonical servers, with
/// Zed's recorded states, then the servers only Zed lists) rendered into the
/// `context_servers` block and spliced into the settings text.
pub open spec fn zed_settings(content: Seq<char>, cfg: CanonicalConfigV) -> Option<Seq<char>> {
    let ex = existing_members(block_json(content), "context_servers"@);
    let entries = zed_entries(cfg, ex, recorded_flags(ex, "enabled"@, true));
    spliced_settings(content, context_block(rendered_values(entries)))
}

/// Splits text into lines as `str::lines` does.
fn split_lines(s: &Vec<char>) -> (r: Vec<Vec<char>>)
    ensures
        r@.map_values(|l: Vec<char>| l@) == lines_from(s@, 0),
{
    let n = s.len();
    let mut out: Vec<Vec<char>> = Vec::new();
    let mut start: usize = 0;
    let mut i: usize = 0;
    let mut cur: Vec<char> = Vec::new();
    while i < n
        invariant
            n == s@.len(),
            start <= i <= n,
            cur@ == s@.subrange(start as int, i as int),
            line_break(s@, start as int) == line_break(s@, i as int),
            start < n ==> lines_from(s@, 0) == out@.map_values(|l: Vec<char>| l@) + lines_from(s@, start as int),
            start >= n ==> lines_from(s@, 0) == out@.map_values(|l: Vec<char>| l@),
        decreases n - i,
    {
        if s[i] == '\n' {
            let ghost raw = s@.subrange(start as int, i as int);
            if cur.len() > 0 && cur[cur.len() - 1] == '\r' {
                cur.pop();
            }
            let ghost before = out@;
            let ghost line = cur@;
            proof {
                assert(line_break(s@, i as int) == i);
                assert(line_break(s@, start as int) == i);
                if raw.len() > 0 && raw.last() == '\r' {
                    assert(line =~= raw.drop_last());
                } else {
                    assert(line =~= raw);
                }
                assert(lines_from(s@, start as int) == seq![line] + lines_from(s@, i + 1));
            }
            out.push(cur);
            proof {
                assert(out@.map_values(|l: Vec<char>| l@) =~= before.map_values(|l: Vec<char>| l@).push(line));
                if i + 1 >= n {
                    assert(lines_from(s@, i + 1) == Seq::<Seq<char>>::empty());
                }
                assert(out@.map_values(|l: Vec<char>| l@) + lines_from(s@, i + 1) =~= before.map_values(|l: Vec<char>| l@) + lines_from(s@, start as int));
            }
            cur = Vec::new();
            i = i + 1;
            start = i;
            assert(cur@ =~= s@.subrange(start as int, i as int));
        } else {
            cur.push(s[i]);
            i = i + 1;
            assert(cur@ =~= s@.subrange(start as int, i as int));
        }
    }
    if start < n {
        let ghost before = out@;
        proof {
            assert(line_break(s@, start as int) == n);
            assert(lines_from(s@, n + 1) == Seq::<Seq<char>>::empty());
            assert(lines_from(s@, start as int) =~= seq![cur@]);
        }
        out.push(cur);
        assert(out@.map_values(|l: Vec<char>| l@) =~= before.map_values(|l: Vec<char>| l@).push(s@.subrange(start as int, n as int)));
    }
    out
}

/// Joins the parts with `sep` between consecutive parts.
fn join_parts(parts: &Vec<Vec<char>>, sep: &Vec<char>) -> (r: Vec<char>)
    ensures
        r@ == join(parts@.map_values(|l: Vec<char>| l@), sep@),
{
    let ghost pv = parts@.map_values(|l: Vec<char>| l@);
    let mut out: Vec<char> = Vec::new();
    let mut i: usize = 0;
    while i < parts.len()
        invariant
            i <= parts@.len(),
            pv == parts@.map_values(|l: Vec<char>| l@),
            out@ == join(pv.subrange(0, i as int), sep@),
        decreases parts@.len() - i,
    {
        if i > 0 {
            push_chars(&mut out, sep);
        }
        push_chars(&mut out, &parts[i]);
        i = i + 1;
        proof {
            let q = pv.subrange(0, i as int);
            assert(q.drop_last() =~= pv.subrange(0, i - 1));
            assert(q.last() == parts@[i - 1]@);
            if i == 1 {
                assert(out@ =~= join(q, sep@));
            }
        }
    }
    assert(pv.subrange(0, pv.len() as int) =~= pv);
    out
}

/// Re-indents every line after the first of `text` by `prefix`.
pub fn reindent(text: &str, prefix: &str) -> (r: String)
    ensures
        r@ == reindented(text@, prefix@),
{
    let cs = chars_of(text);
    let lines = split_lines(&cs);
    let mut sep: Vec<char> = Vec::new();
    sep.push('\n');
    push_str(&mut sep, prefix);
    assert(sep@ =~= seq!['\n'] + prefix@);
    let out = join_parts(&lines, &sep);
    string_of(out.as_slice())
}

impl ZedTarget {
    /// A target for the settings file at `path`, or, when none is given, the
    /// first existing of `<config>/zed/settings.json`,
    /// `<config>/Zed/settings.json` and `~/.config/zed/settings.json` (as
    /// `present` reports), else the platform's default location (`Zed` on
    /// macOS).
    pub fn new<F: Fn(&str) -> bool>(path: Option<String>, present: F, macos: bool) -> (r: Self)
        requires
            forall|s: &str| present.requires((s,)),
        ensures
            match path {
                Some(p) => r@ == p@,
                None => exists|cd: Option<Seq<char>>, h: Option<Seq<char>>|
                    zed_default_path(present, cd, h, macos, r@),
            },
    {
        match path {
            Some(p) => {
                let r = ZedTarget { path: p };
                assert(r@ == p@);
                r
            },
            None => {
                let cd = env::config_dir();
                let h = env::home_dir();
                let p = Self::default_path(&cd, &h, &present, macos);
                let r = ZedTarget { path: p };
                assert(zed_default_path(present, crate::config::opt_str(cd), crate::config::opt_str(h), macos, r@));
                r
            },
        }
    }

    /// The default settings file for the given platform directories.
    pub fn default_path<F: Fn(&str) -> bool>(
        config_dir: &Option<String>,
        home: &Option<String>,
        present: &F,
        macos: bool,
    ) -> (r: String)
        requires
            forall|s: &str| present.requires((s,)),
        ensures
            zed_default_path(*present, crate::config::opt_str(*config_dir), crate::config::opt_str(*home), macos, r@),
    {
        proof {
            reveal_strlit("zed/settings.json");
            reveal_strlit("Zed/settings.json");
            reveal_strlit(".config/zed/settings.json");
        }
        let mut cands: Vec<String> = Vec::new();
        match config_dir {
            Some(d) => {
                cands.push(join_path(d.as_str(), "zed/settings.json"));
                cands.push(join_path(d.as_str(), "Zed/settings.json"));
            },
            None => {},
        }
        match home {
            Some(h) => {
                cands.push(join_path(h.as_str(), ".config/zed/settings.json"));
            },
            None => {},
        }
        let ghost c = zed_candidates(crate::config::opt_str(*config_dir), crate::config::opt_str(*home));
        assert(cands@.map_values(|x: String| x@) =~= c);
        match first_existing(&cands, present) {
            Some(k) => {
                let p = cands[k].clone();
                assert(p@ == c[k as int]);
                p
            },
            None => {
                assert forall|j: int| 0 <= j < c.len() implies reported(*present, #[trigger] c[j], false) by {
                    assert(c[j] == cands@[j]@);
                }
                match config_dir {
                    Some(d) => if macos {
                        join_path(d.as_str(), "Zed/settings.json")
                    } else {
                        join_path(d.as_str(), "zed/settings.json")
                    },
                    None => match home {
                        Some(h) => join_path(h.as_str(), ".config/zed/settings.json"),
                        None => ".config/zed/settings.json".to_owned(),
                    },
                }
            },
        }
    }

    /// The settings file this target writes.
    pub fn path(&self) -> (r: &str)
        ensures
            r@ == self@,
    {
        self.path.as_str()
    }

    /// Locate the span (start, end) of `"context_servers": { ... }` in a
    /// JSONC string, as byte offsets: from the opening quote of the first
    /// `"context_servers"` key outside strings and comments to just past
    /// the `}` that closes the object after it.
    pub fn find_context_servers_span(content: &str) -> (r: Option<(usize, usize)>)
        ensures
            match r {
                None => context_servers_span(content.spec_bytes()) is None,
                Some((s, e)) => {
                    &&& context_servers_span(content.spec_bytes()) == Some((s as int, e as int))
                    &&& s + 17 < e <= content.spec_bytes().len()
                    &&& content.spec_bytes().subrange(s as int, s + 17) == crate::jsonc::context_key()
                    &&& content.spec_bytes()[e - 1] == 0x7du8
                },
            },
    {
        let r = context_servers_span_bytes(content.as_bytes());
        proof {
            lemma_span_shape(content.spec_bytes());
        }
        r
    }

    /// The JSON text of the existing `context_servers` block, wrapped in
    /// braces so that it parses as an object, with comments and trailing
    /// commas removed and every other character kept; `None` when the
    /// settings have no such block.
    pub fn context_servers_source(content: &str) -> (r: Option<String>)
        ensures
            match context_servers_span(content.spec_bytes()) {
                None => r is None,
                Some((s, e)) => r matches Some(t) && t@ == strip_jsonc(
                    seq!['{'] + decode_utf8(content.spec_bytes().subrange(s, e)) + seq!['}'],
                ),
            },
    {
        let b = content.as_bytes();
        match context_servers_span_bytes(b) {
            None => None,
            Some((s, e)) => {
                let ghost bb = content.spec_bytes();
                proof {
                    lemma_span_shape(bb);
                    encode_utf8_valid_utf8(content@);
                    lemma_span_boundaries(bb);
                    valid_utf8_split(bb, e as int);
                    let p = bb.subrange(0, e as int);
                    assert(p[s as int] == bb[s as int]);
                    assert(bb.subrange(s as int, s + 17)[0] == bb[s as int]);
                    is_char_boundary_iff_not_is_continuation_byte(p, s as int);
                }
                let (left, _) = content.split_at(e);
                let (_, mid) = left.split_at(s);
                proof {
                    assert(mid.spec_bytes() =~= bb.subrange(s as int, e as int));
                    encode_utf8_decode_utf8(mid@);
                }
                let cs = chars_of(mid);
                let mut w: Vec<char> = Vec::new();
                w.push('{');
                let mut k: usize = 0;
                while k < cs.len()
                    invariant
                        k <= cs@.len(),
                        w@ == seq!['{'] + cs@.subrange(0, k as int),
                    decreases cs@.len() - k,
                {
                    w.push(cs[k]);
                    k = k + 1;
                    assert(w@ =~= seq!['{'] + cs@.subrange(0, k as int));
                }
                w.push('}');
                assert(w@ =~= seq!['{'] + mid@ + seq!['}']);
                proof {
                    lemma_strip_ok_when_last_not_star(w@, 0, Lex::Code);
                }
                let cleaned = strip_jsonc_chars(&w);
                Some(string_of(cleaned.as_slice()))
            },
        }
    }

    /// The existing servers and their enabled states (default `true`) of an
    /// already parsed `context_servers` block.
    pub fn servers_of_block(parsed: Option<&Json>) -> (r: (Vec<(String, Json)>, Vec<(String, bool)>))
        ensures
            members_view(r.0@) == existing_members(opt_view(parsed), "context_servers"@),
            flags_view(r.1@) == recorded_flags(existing_members(opt_view(parsed), "context_servers"@), "enabled"@, true),
    {
        read_existing(parsed, "context_servers", "enabled", true)
    }

    /// Extract existing servers and their enabled states (default `true`)
    /// from the settings text's `context_servers` block; none when there is
    /// no block or it is not JSON once comments are removed.
    pub fn parse_existing_servers(content: &str) -> (r: (Vec<(String, Json)>, Vec<(String, bool)>))
        ensures
            members_view(r.0@) == existing_members(block_json(content@), "context_servers"@),
            flags_view(r.1@) == recorded_flags(existing_members(block_json(content@), "context_servers"@), "enabled"@, true),
            crate::json_text::keys_ascending(members_view(r.0@)),
    {
        let parsed = match Self::context_servers_source(content) {
            Some(src) => parse_json_text(src.as_str()),
            None => None,
        };
        proof {
            lemma_sorted_member(crate::config::opt_json(parsed), "context_servers"@);
        }
        Self::servers_of_block(parsed.as_ref())
    }

    /// The new settings text (see `zed_settings`); `None` when the text has
    /// no `}` at all.
    pub fn new_settings(content: &str, config: &CanonicalConfig) -> (r: Option<String>)
        ensures
            match zed_settings(content@, config@) {
                Some(t) => r matches Some(x) && x@ == t,
                None => r is None,
            },
    {
        let (servers, states) = Self::parse_existing_servers(content);
        let entries = Self::server_entries(config, &servers, &states);
        let ghost ev = members_view(entries@);
        proof {
            lemma_members_view(entries@);
        }
        let mut rendered: Vec<(String, String)> = Vec::new();
        let mut i: usize = 0;
        while i < entries.len()
            invariant
                i <= entries@.len(),
                ev == members_view(entries@),
                ev.len() == entries@.len(),
                forall|t: int| 0 <= t < entries@.len() ==> #[trigger] ev[t] == (entries@[t].0@, json_view(entries@[t].1)),
                rendered@.map_values(|e: (String, String)| (e.0@, e.1@)) == rendered_values(ev.subrange(0, i as int)),
            decreases entries@.len() - i,
        {
            let text = match pretty_json(&entries[i].1) {
                Ok(t) => t,
                Err(_) => "{}".to_owned(),
            };
            proof {
                reveal_strlit("{}");
            }
            let ghost before = rendered@;
            rendered.push((entries[i].0.clone(), text));
            proof {
                assert(ev.subrange(0, i + 1).drop_last() =~= ev.subrange(0, i as int));
                assert(rendered@.map_values(|e: (String, String)| (e.0@, e.1@))
                    =~= before.map_values(|e: (String, String)| (e.0@, e.1@)).push((ev[i as int].0, pretty_or_braces(ev[i as int].1))));
            }
            i = i + 1;
        }
        assert(ev.subrange(0, ev.len() as int) =~= ev);
        let block = Self::render_context_servers(&rendered);
        Self::splice_settings(content, block.as_str())
    }

    /// The JSON value Zed gets for one canonical server.
    pub fn server_value(server: &ServerDefinition, recorded: Option<bool>) -> (r: Json)
        ensures
            r@ == zed_server_value(server@, recorded),
    {
        proof {
            reveal_strlit("enabled");
            reveal_strlit("url");
            reveal_strlit("settings");
        }
        let enabled = match recorded {
            Some(b) => b,
            None => match server.enabled {
                Some(b) => b,
                None => true,
            },
        };
        let ghost sv = server@;
        let mut obj: Vec<(String, Json)> = Vec::new();
        assert(members_view(obj@) =~= seq![]);
        push_member(&mut obj, "enabled", Json::Bool(enabled));
        let ghost head = seq![("enabled"@, JsonV::Bool(merged_flag(recorded, sv.enabled, true)))];
        assert(members_view(obj@) =~= head);
        let ghost body = match sv.remote_url() {
            Some(u) => seq![("url"@, JsonV::Str(u))],
            None => local_members(sv),
        };
        match server.get_url() {
            Some(u) => {
                push_member(&mut obj, "url", str_value(u));
            },
            None => push_local_members(&mut obj, server),
        }
        assert(members_view(obj@) =~= head + body);
        match &server.settings {
            Some(st) => {
                push_member(&mut obj, "settings", st.copy());
            },
            None => {},
        }
        assert(members_view(obj@) =~= head + body + opt_member("settings"@, sv.settings));
        let r = Json::Object(obj);
        assert(r@ =~= zed_server_value(server@, recorded));
        r
    }

    /// The entries of the new `context_servers` object (smart merge): each
    /// canonical server, keeping the enabled state Zed recorded, then the
    /// servers only Zed knows, unchanged.
    pub fn server_entries(
        config: &CanonicalConfig,
        existing_servers: &Vec<(String, Json)>,
        existing_states: &Vec<(String, bool)>,
    ) -> (r: Vec<(String, Json)>)
        ensures
            members_view(r@) == zed_entries(config@, members_view(existing_servers@), flags_view(existing_states@)),
    {
        let ghost cv = config@;
        let ghost states = flags_view(existing_states@);
        let mut out: Vec<(String, Json)> = Vec::new();
        let mut i: usize = 0;
        while i < config.servers.len()
            invariant
                i <= config.servers@.len(),
                cv == config@,
                states == flags_view(existing_states@),
                members_view(out@) == cv.servers.subrange(0, i as int).map_values(
                    |p: (Seq<char>, ServerDefinitionV)| (p.0, zed_server_value(p.1, crate::json::lookup(states, p.0))),
                ),
            decreases config.servers@.len() - i,
        {
            let name = &config.servers[i].0;
            let recorded = recorded_flag(existing_states, name.as_str());
            let v = Self::server_value(&config.servers[i].1, recorded);
            let nm = name.clone();
            proof {
                lemma_members_view_push(out@, (nm, v));
            }
            out.push((nm, v));
            i = i + 1;
            assert(members_view(out@) =~= cv.servers.subrange(0, i as int).map_values(
                |p: (Seq<char>, ServerDefinitionV)| (p.0, zed_server_value(p.1, crate::json::lookup(states, p.0))),
            ));
        }
        let rest = unmanaged_entries(config, existing_servers);
        let mut k: usize = 0;
        let ghost head = members_view(out@);
        assert(cv.servers.subrange(0, cv.servers.len() as int) =~= cv.servers);
        while k < rest.len()
            invariant
                k <= rest@.len(),
                members_view(out@) == head + members_view(rest@).subrange(0, k as int),
            decreases rest@.len() - k,
        {
            let copy = rest[k].1.copy();
            let nm = rest[k].0.clone();
            proof {
                lemma_members_view(rest@);
                lemma_members_view_push(out@, (nm, copy));
            }
            out.push((nm, copy));
            k = k + 1;
            assert(members_view(out@) =~= head + members_view(rest@).subrange(0, k as int));
        }
        proof {
            lemma_members_view(rest@);
            assert(members_view(rest@).subrange(0, rest@.len() as int) =~= members_view(rest@));
        }
        out
    }

    /// Render the `context_servers` block matching Zed's indentation style,
    /// from each server's name and its rendered (pretty-printed) value.
    pub fn render_context_servers(entries: &Vec<(String, String)>) -> (r: String)
        ensures
            r@ == context_block(entries@.map_values(|e: (String, String)| (e.0@, e.1@))),
    {
        proof {
            reveal_strlit("    \"");
            reveal_strlit("\": ");
            reveal_strlit("    ");
            reveal_strlit("\"context_servers\": {\n");
            reveal_strlit(",\n");
            reveal_strlit("\n  }");
        }
        let ghost ev = entries@.map_values(|e: (String, String)| (e.0@, e.1@));
        let ghost parts = ev.map_values(|e: (Seq<char>, Seq<char>)| rendered_entry(e.0, e.1));
        let mut body: Vec<char> = Vec::new();
        let mut i: usize = 0;
        while i < entries.len()
            invariant
                i <= entries@.len(),
                ev == entries@.map_values(|e: (String, String)| (e.0@, e.1@)),
                parts == ev.map_values(|e: (Seq<char>, Seq<char>)| rendered_entry(e.0, e.1)),
                body@ == join(parts.subrange(0, i as int), ",\n"@),
            decreases entries@.len() - i,
        {
            if i > 0 {
                push_str(&mut body, ",\n");
            }
            push_str(&mut body, "    \"");
            push_str(&mut body, entries[i].0.as_str());
            push_str(&mut body, "\": ");
            let ind = reindent(entries[i].1.as_str(), "    ");
            push_str(&mut body, ind.as_str());
            i = i + 1;
            proof {
                let q = parts.subrange(0, i as int);
                assert(q.drop_last() =~= parts.subrange(0, i - 1));
                assert(q.last() == rendered_entry(entries@[i - 1].0@, entries@[i - 1].1@));
                if i == 1 {
                    assert(body@ =~= join(q, ",\n"@));
                } else {
                    assert(body@ =~= join(q, ",\n"@));
                }
            }
        }
        assert(parts.subrange(0, parts.len() as int) =~= parts);
        let mut out: Vec<char> = Vec::new();
        push_str(&mut out, "\"context_servers\": {\n");
        push_chars(&mut out, &body);
        push_str(&mut out, "\n  }");
        assert(out@ =~= context_block(ev));
        string_of(out.as_slice())
    }

    /// The settings text with `block` in place of the existing
    /// `context_servers` block, or added before the final `}` when there is
    /// none; `None` when the text holds no `}` at all.
    pub fn splice_settings(content: &str, block: &str) -> (r: Option<String>)
        ensures
            match r {
                Some(t) => spliced_settings(content@, block@) == Some(t@),
                None => spliced_settings(content@, block@) is None,
            },
    {
        let b = content.as_bytes();
        proof {
            encode_utf8_valid_utf8(content@);
            lemma_span_boundaries(b@);
        }
        match context_servers_span_bytes(b) {
            Some((s, e)) => {
                let (pre, _) = content.split_at(s);
                let (_, post) = content.split_at(e);
                proof {
                    encode_utf8_decode_utf8(pre@);
                    encode_utf8_decode_utf8(post@);
                }
                Some(concat3(pre, block, post))
            },
            None => {
                let cs = chars_of(content);
                let mut j = cs.len();
                assert(cs@.subrange(0, j as int) =~= cs@);
                while j > 0 && cs[j - 1] != '}'
                    invariant
                        j <= cs@.len(),
                        cs@ == content@,
                        last_index_of(cs@, '}') == last_index_of(cs@.subrange(0, j as int), '}'),
                    decreases j,
                {
                    assert(cs@.subrange(0, j as int).drop_last() =~= cs@.subrange(0, j - 1));
                    j = j - 1;
                }
                if j == 0 {
                    assert(cs@.subrange(0, 0) =~= seq![]);
                    return None;
                }
                let last = j - 1;
                assert(cs@.subrange(0, j as int).last() == '}');
                assert(last_index_of(cs@, '}') == Some(last as int));
                let mut t = last;
                while t > 0 && is_whitespace(cs[t - 1])
                    invariant
                        t <= last < cs@.len(),
                        trim_end(cs@.subrange(0, last as int)) == trim_end(cs@.subrange(0, t as int)),
                    decreases t,
                {
                    assert(cs@.subrange(0, t as int).drop_last() =~= cs@.subrange(0, t - 1));
                    t = t - 1;
                }
                assert(trim_end(cs@.subrange(0, t as int)) == cs@.subrange(0, t as int));
                let mut out: Vec<char> = Vec::new();
                let mut q: usize = 0;
                while q < t
                    invariant
                        q <= t <= cs@.len(),
                        out@ == cs@.subrange(0, q as int),
                    decreases t - q,
                {
                    out.push(cs[q]);
                    q = q + 1;
                    assert(out@ =~= cs@.subrange(0, q as int));
                }
                proof {
                    reveal_strlit("\n  ");
                    reveal_strlit(",\n  ");
                    reveal_strlit("\n}\n");
                }
                if t > 0 && (cs[t - 1] == '{' || cs[t - 1] == ',') {
                    push_str(&mut out, "\n  ");
                } else {
                    push_str(&mut out, ",\n  ");
                }
                push_str(&mut out, block);
                push_str(&mut out, "\n}\n");
                let ghost prefix = cs@.subrange(0, t as int);
                assert(out@ =~= spliced_settings(content@, block@).unwrap());
                Some(string_of(out.as_slice()))
            },
        }
    }
}

} // verus!
