//! What synchronization promises across runs and across clients: servers
//! the canonical configuration does not define are kept, every canonical
//! server is written, a client's own on/off state survives, and a second
//! run over a file the first run wrote changes nothing.
use vstd::prelude::*;
use crate::config::{CanonicalConfigV, ServerDefinitionV};
use crate::json::{JsonV, lookup, has_key, get_member, object_member, as_bool, lemma_lookup_index};
use crate::targets::{unmanaged, existing_members, recorded_flags, merged_flag, put, key_index};
use crate::targets::vscode::{vscode_doc, vscode_server_value};
use crate::targets::antigravity::{antigravity_doc, antigravity_server_value, antigravity_disabled};
use crate::targets::opencode::{opencode_mcp, opencode_root, opencode_server_value};
use crate::targets::zed::{zed_entries, zed_server_value};
use crate::targets::codex::{codex_update, codex_apply, codex_start, codex_prepared, codex_state, codex_edits, with_server, edited, edit_entries, mcp_key, pairs_table, TomlEditV};
use crate::targets::toml_doc::{TomlItem, table_like_at, sub_table, toml_parsed};
use crate::targets::zed::spliced_settings;
use crate::jsonc::{context_servers_span, lemma_span_shape, lemma_span_boundaries};
use vstd::utf8::{encode_utf8, decode_utf8, encode_utf8_valid_utf8, encode_utf8_decode_utf8, valid_utf8_split, decode_utf8_split, is_char_boundary_iff_not_is_continuation_byte};

verus! {

proof fn lemma_filter_none<A>(s: Seq<A>, pred: spec_fn(A) -> bool)
    requires
        forall|i: int| 0 <= i < s.len() ==> !pred(#[trigger] s[i]),
    ensures
        s.filter(pred) == Seq::<A>::empty(),
    decreases s.len(),
{
    reveal(Seq::filter);
    if s.len() > 0 {
        let t = s.drop_last();
        assert forall|i: int| 0 <= i < t.len() implies !pred(#[trigger] t[i]) by {
            assert(t[i] == s[i]);
        }
        lemma_filter_none(t, pred);
        assert(!pred(s[s.len() - 1]));
    }
}

proof fn lemma_filter_all<A>(s: Seq<A>, pred: spec_fn(A) -> bool)
    requires
        forall|i: int| 0 <= i < s.len() ==> pred(#[trigger] s[i]),
    ensures
        s.filter(pred) == s,
    decreases s.len(),
{
    reveal(Seq::filter);
    if s.len() > 0 {
        let t = s.drop_last();
        assert forall|i: int| 0 <= i < t.len() implies pred(#[trigger] t[i]) by {
            assert(t[i] == s[i]);
        }
        lemma_filter_all(t, pred);
        assert(pred(s[s.len() - 1]));
        assert(t.push(s.last()) =~= s);
    }
}

/// Keeping the unmanaged entries of a list that starts with written
/// canonical servers gives the unmanaged entries of the original list.
proof fn lemma_unmanaged_again(
    cfg: CanonicalConfigV,
    mapped: Seq<(Seq<char>, JsonV)>,
    ex: Seq<(Seq<char>, JsonV)>,
)
    requires
        forall|j: int| 0 <= j < mapped.len() ==> cfg.defines(#[trigger] mapped[j].0),
    ensures
        unmanaged(cfg, mapped + unmanaged(cfg, ex)) == unmanaged(cfg, ex),
{
    let pred = |p: (Seq<char>, JsonV)| !cfg.defines(p.0);
    let u = ex.filter(pred);
    assert(unmanaged(cfg, ex) == u);
    Seq::filter_distributes_over_add(mapped, u, pred);
    assert forall|i: int| 0 <= i < mapped.len() implies !pred(#[trigger] mapped[i]) by {}
    lemma_filter_none(mapped, pred);
    assert forall|i: int| 0 <= i < u.len() implies pred(#[trigger] u[i]) by {
        ex.lemma_filter_pred(pred, i);
    }
    lemma_filter_all(u, pred);
    assert(mapped.filter(pred) + u.filter(pred) =~= u);
    assert(unmanaged(cfg, mapped + u) == (mapped + u).filter(pred));
}

/// A lookup in a concatenation finds the first list's entry when it has one.
proof fn lemma_lookup_concat<V>(a: Seq<(Seq<char>, V)>, b: Seq<(Seq<char>, V)>, k: Seq<char>)
    ensures
        lookup(a + b, k) == if has_key(a, k) { lookup(a, k) } else { lookup(b, k) },
    decreases a.len(),
{
    if a.len() == 0 {
        assert(a + b =~= b);
    } else {
        assert((a + b).drop_first() =~= a.drop_first() + b);
        lemma_lookup_concat(a.drop_first(), b, k);
        if a[0].0 != k {
            if has_key(a, k) {
                let i = choose|i: int| 0 <= i < a.len() && #[trigger] a[i].0 == k;
                assert(a.drop_first()[i - 1].0 == k);
            }
            if has_key(a.drop_first(), k) {
                let i = choose|i: int| 0 <= i < a.drop_first().len() && #[trigger] a.drop_first()[i].0 == k;
                assert(a[i + 1].0 == k);
            }
        } else {
            assert(a[0].0 == k);
        }
    }
}

/// Every entry of the existing servers object that the configuration does
/// not define is in the VSCode document's `servers`, unchanged.
pub proof fn law_vscode_keeps_unmanaged(cfg: CanonicalConfigV, existing: Option<JsonV>, j: int)
    requires
        0 <= j < existing_members(existing, "servers"@).len(),
        !cfg.defines(existing_members(existing, "servers"@)[j].0),
    ensures
        object_member(vscode_doc(cfg, existing), "servers"@) matches Some(o)
            && o.contains(existing_members(existing, "servers"@)[j]),
{
    let ex = existing_members(existing, "servers"@);
    let pred = |p: (Seq<char>, JsonV)| !cfg.defines(p.0);
    ex.lemma_filter_contains(pred, j);
    let m = cfg.servers.map_values(|p: (Seq<char>, ServerDefinitionV)| (p.0, vscode_server_value(p.1)));
    let u = unmanaged(cfg, ex);
    let k = choose|k: int| 0 <= k < u.len() && u[k] == ex[j];
    assert((m + u)[m.len() + k] == ex[j]);
}

/// Every canonical server is in the VSCode document's `servers`, with the
/// value VSCode gets for it.
pub proof fn law_vscode_writes_all(cfg: CanonicalConfigV, existing: Option<JsonV>, i: int)
    requires
        0 <= i < cfg.servers.len(),
    ensures
        object_member(vscode_doc(cfg, existing), "servers"@) matches Some(o)
            && o.contains((cfg.servers[i].0, vscode_server_value(cfg.servers[i].1))),
{
    let m = cfg.servers.map_values(|p: (Seq<char>, ServerDefinitionV)| (p.0, vscode_server_value(p.1)));
    let u = unmanaged(cfg, existing_members(existing, "servers"@));
    assert((m + u)[i] == (cfg.servers[i].0, vscode_server_value(cfg.servers[i].1)));
}

/// Synchronizing VSCode again over the document a synchronization wrote
/// gives the same document.
#[verifier::spinoff_prover]
#[verifier::rlimit(40)]
pub proof fn law_vscode_idempotent(cfg: CanonicalConfigV, existing: Option<JsonV>)
    ensures
        vscode_doc(cfg, Some(vscode_doc(cfg, existing))) == vscode_doc(cfg, existing),
{
    reveal_strlit("servers");
    reveal_strlit("inputs");
    let d1 = vscode_doc(cfg, existing);
    let ex = existing_members(existing, "servers"@);
    let m = cfg.servers.map_values(|p: (Seq<char>, ServerDefinitionV)| (p.0, vscode_server_value(p.1)));
    let s1 = m + unmanaged(cfg, ex);
    assert(existing_members(Some(d1), "servers"@) == s1);
    assert forall|j: int| 0 <= j < m.len() implies cfg.defines(#[trigger] m[j].0) by {
        assert(cfg.servers[j].0 == m[j].0);
    }
    lemma_unmanaged_again(cfg, m, ex);
    let inputs1 = match cfg.inputs {
        Some(i) => i,
        None => match existing {
            Some(d) => match get_member(d, "inputs"@) {
                Some(i) => i,
                None => JsonV::Array(seq![]),
            },
            None => JsonV::Array(seq![]),
        },
    };
    assert(d1 == JsonV::Object(seq![("servers"@, JsonV::Object(s1)), ("inputs"@, inputs1)]));
    let o1 = seq![("servers"@, JsonV::Object(s1)), ("inputs"@, inputs1)];
    assert("servers"@.len() != "inputs"@.len());
    assert(o1.drop_first() =~= seq![("inputs"@, inputs1)]);
    assert(lookup(o1.drop_first(), "inputs"@) == Some(inputs1));
    assert(lookup(o1, "inputs"@) == Some(inputs1));
    assert(get_member(d1, "inputs"@) == Some(inputs1));
    assert(unmanaged(cfg, s1) == unmanaged(cfg, ex));
    assert(m + unmanaged(cfg, s1) == s1);
}

/// The flag `flag` of a value when it is a boolean, else the default (what
/// `recorded_flags` reads for each entry).
pub open spec fn flag_value(v: JsonV, flag: Seq<char>, default: bool) -> bool {
    match get_member(v, flag) {
        Some(x) => match as_bool(x) {
            Some(b) => b,
            None => default,
        },
        None => default,
    }
}

/// The recorded flag of the first entry with a key is read from that entry.
proof fn lemma_recorded_first(o: Seq<(Seq<char>, JsonV)>, i: int, flag: Seq<char>, default: bool)
    requires
        0 <= i < o.len(),
        forall|t: int| 0 <= t < i ==> (#[trigger] o[t]).0 != o[i].0,
    ensures
        lookup(recorded_flags(o, flag, default), o[i].0) == Some(flag_value(o[i].1, flag, default)),
{
    let r = recorded_flags(o, flag, default);
    assert(r[i] == (o[i].0, flag_value(o[i].1, flag, default)));
    assert forall|t: int| 0 <= t < i implies (#[trigger] r[t]).0 != o[i].0 by {
        assert(r[t].0 == o[t].0);
    }
    lemma_lookup_index(r, o[i].0, i);
}

proof fn lemma_key_index_props<V>(o: Seq<(Seq<char>, V)>, k: Seq<char>)
    ensures
        match key_index(o, k) {
            Some(i) => 0 <= i < o.len() && o[i].0 == k && forall|t: int| 0 <= t < i ==> o[t].0 != k,
            None => forall|t: int| 0 <= t < o.len() ==> o[t].0 != k,
        },
    decreases o.len(),
{
    if o.len() > 0 {
        let d = o.drop_last();
        lemma_key_index_props(d, k);
        assert forall|t: int| 0 <= t < d.len() implies d[t] == o[t] by {}
    }
}

/// The first index with a key is unique.
proof fn lemma_key_index_first<V>(o: Seq<(Seq<char>, V)>, k: Seq<char>, i: int)
    requires
        0 <= i < o.len(),
        o[i].0 == k,
        forall|t: int| 0 <= t < i ==> o[t].0 != k,
    ensures
        key_index(o, k) == Some(i),
{
    lemma_key_index_props(o, k);
}

/// After setting a key, looking it up gives the value set.
proof fn lemma_lookup_put<V>(o: Seq<(Seq<char>, V)>, k: Seq<char>, v: V)
    ensures
        lookup(put(o, k, v), k) == Some(v),
{
    lemma_key_index_props(o, k);
    match key_index(o, k) {
        Some(i) => {
            let p = o.update(i, (k, v));
            assert forall|t: int| 0 <= t < i implies p[t].0 != k by {}
            lemma_lookup_index(p, k, i);
        },
        None => {
            let p = o.push((k, v));
            assert forall|t: int| 0 <= t < o.len() implies p[t].0 != k by {}
            lemma_lookup_index(p, k, o.len() as int);
        },
    }
}

/// Setting a key twice to the same value is setting it once.
proof fn lemma_put_put<V>(o: Seq<(Seq<char>, V)>, k: Seq<char>, v: V)
    ensures
        put(put(o, k, v), k, v) == put(o, k, v),
{
    lemma_key_index_props(o, k);
    match key_index(o, k) {
        Some(i) => {
            let p = o.update(i, (k, v));
            assert forall|t: int| 0 <= t < i implies p[t].0 != k by {}
            lemma_key_index_first(p, k, i);
            assert(p.update(i, (k, v)) =~= p);
        },
        None => {
            let p = o.push((k, v));
            assert forall|t: int| 0 <= t < o.len() implies p[t].0 != k by {}
            lemma_key_index_first(p, k, o.len() as int);
            assert(p.update(o.len() as int, (k, v)) =~= p);
        },
    }
}

/// The value of a server's first entry in a list that starts with the
/// written canonical servers.
pub(crate) proof fn lemma_written_first(
    cfg: CanonicalConfigV,
    m: Seq<(Seq<char>, JsonV)>,
    rest: Seq<(Seq<char>, JsonV)>,
    i: int,
)
    requires
        cfg.wf(),
        m.len() == cfg.servers.len(),
        forall|j: int| 0 <= j < m.len() ==> (#[trigger] m[j]).0 == cfg.servers[j].0,
        0 <= i < m.len(),
    ensures
        forall|t: int| 0 <= t < i ==> (#[trigger] (m + rest)[t]).0 != (m + rest)[i].0,
        (m + rest)[i] == m[i],
{
    crate::json_text::lemma_ascending_unique(cfg.servers);
    assert forall|t: int| 0 <= t < i implies (#[trigger] (m + rest)[t]).0 != (m + rest)[i].0 by {
        assert((m + rest)[t] == m[t]);
        assert(cfg.servers[t].0 != cfg.servers[i].0);
    }
}

/// OpenCode reads back the state it wrote.
proof fn lemma_opencode_flag(s: ServerDefinitionV, rec: Option<bool>)
    ensures
        flag_value(opencode_server_value(s, rec), "enabled"@, true) == merged_flag(rec, s.enabled, true),
        opencode_server_value(s, Some(merged_flag(rec, s.enabled, true))) == opencode_server_value(s, rec),
{
}

/// The `mcp` object OpenCode's new root holds.
proof fn lemma_opencode_root_mcp(root: Option<JsonV>, mcp: Seq<(Seq<char>, JsonV)>)
    ensures
        existing_members(Some(opencode_root(root, mcp)), "mcp"@) == mcp,
        opencode_root(Some(opencode_root(root, mcp)), mcp) == opencode_root(root, mcp),
{
    match root {
        Some(JsonV::Object(o)) => {
            lemma_lookup_put(o, "mcp"@, JsonV::Object(mcp));
            lemma_put_put(o, "mcp"@, JsonV::Object(mcp));
        },
        _ => {
            let o = seq![("mcp"@, JsonV::Object(mcp))];
            lemma_key_index_first(o, "mcp"@, 0);
            assert(o.update(0, ("mcp"@, JsonV::Object(mcp))) =~= o);
        },
    }
}

/// Every entry of OpenCode's existing `mcp` object that the configuration
/// does not define is in the new `mcp` object, unchanged.
pub proof fn law_opencode_keeps_unmanaged(cfg: CanonicalConfigV, existing: Option<JsonV>, j: int)
    requires
        0 <= j < existing_members(existing, "mcp"@).len(),
        !cfg.defines(existing_members(existing, "mcp"@)[j].0),
    ensures
        opencode_mcp(cfg, existing).contains(existing_members(existing, "mcp"@)[j]),
        existing_members(Some(opencode_root(existing, opencode_mcp(cfg, existing))), "mcp"@) == opencode_mcp(cfg, existing),
{
    let ex = existing_members(existing, "mcp"@);
    let pred = |p: (Seq<char>, JsonV)| !cfg.defines(p.0);
    ex.lemma_filter_contains(pred, j);
    let states = recorded_flags(ex, "enabled"@, true);
    let m = cfg.servers.map_values(|p: (Seq<char>, ServerDefinitionV)| (p.0, opencode_server_value(p.1, lookup(states, p.0))));
    let u = unmanaged(cfg, ex);
    let k = choose|k: int| 0 <= k < u.len() && u[k] == ex[j];
    assert((m + u)[m.len() + k] == ex[j]);
    lemma_opencode_root_mcp(existing, opencode_mcp(cfg, existing));
}

/// A server OpenCode has switched on or off keeps that state, whatever the
/// canonical definition says; a server it does not list gets the
/// definition's state, else on.
pub proof fn law_opencode_state_survives(cfg: CanonicalConfigV, existing: Option<JsonV>, i: int)
    requires
        cfg.wf(),
        0 <= i < cfg.servers.len(),
    ensures
        lookup(opencode_mcp(cfg, existing), cfg.servers[i].0) matches Some(v)
            && flag_value(v, "enabled"@, true) == merged_flag(
                lookup(recorded_flags(existing_members(existing, "mcp"@), "enabled"@, true), cfg.servers[i].0),
                cfg.servers[i].1.enabled,
                true,
            ),
{
    let ex = existing_members(existing, "mcp"@);
    let states = recorded_flags(ex, "enabled"@, true);
    let m = cfg.servers.map_values(|p: (Seq<char>, ServerDefinitionV)| (p.0, opencode_server_value(p.1, lookup(states, p.0))));
    let u = unmanaged(cfg, ex);
    lemma_written_first(cfg, m, u, i);
    lemma_lookup_index(m + u, cfg.servers[i].0, i);
    lemma_opencode_flag(cfg.servers[i].1, lookup(states, cfg.servers[i].0));
}

/// Synchronizing OpenCode again over the file a synchronization wrote gives
/// the same file.
pub proof fn law_opencode_idempotent(cfg: CanonicalConfigV, root: Option<JsonV>)
    requires
        cfg.wf(),
    ensures
        ({
            let r1 = opencode_root(root, opencode_mcp(cfg, root));
            opencode_root(Some(r1), opencode_mcp(cfg, Some(r1))) == r1
        }),
{
    let mcp1 = opencode_mcp(cfg, root);
    let r1 = opencode_root(root, mcp1);
    lemma_opencode_root_mcp(root, mcp1);
    let ex = existing_members(root, "mcp"@);
    let states1 = recorded_flags(ex, "enabled"@, true);
    let m1 = cfg.servers.map_values(|p: (Seq<char>, ServerDefinitionV)| (p.0, opencode_server_value(p.1, lookup(states1, p.0))));
    let u1 = unmanaged(cfg, ex);
    assert(mcp1 == m1 + u1);
    let states2 = recorded_flags(mcp1, "enabled"@, true);
    let m2 = cfg.servers.map_values(|p: (Seq<char>, ServerDefinitionV)| (p.0, opencode_server_value(p.1, lookup(states2, p.0))));
    assert forall|i: int| 0 <= i < m1.len() implies #[trigger] m2[i] == m1[i] by {
        lemma_written_first(cfg, m1, u1, i);
        lemma_recorded_first(mcp1, i, "enabled"@, true);
        lemma_opencode_flag(cfg.servers[i].1, lookup(states1, cfg.servers[i].0));
    }
    assert(m2 =~= m1);
    assert forall|j: int| 0 <= j < m1.len() implies cfg.defines(#[trigger] m1[j].0) by {
        assert(cfg.servers[j].0 == m1[j].0);
    }
    lemma_unmanaged_again(cfg, m1, ex);
    assert(opencode_mcp(cfg, Some(r1)) == m2 + unmanaged(cfg, mcp1));
}

/// Zed reads back the state it wrote.
proof fn lemma_zed_flag(s: ServerDefinitionV, rec: Option<bool>)
    ensures
        flag_value(zed_server_value(s, rec), "enabled"@, true) == merged_flag(rec, s.enabled, true),
        zed_server_value(s, Some(merged_flag(rec, s.enabled, true))) == zed_server_value(s, rec),
{
}

/// Merging Zed's `context_servers` again over the entries a merge produced,
/// with the states read back from them, gives the same entries.
pub proof fn law_zed_entries_idempotent(
    cfg: CanonicalConfigV,
    existing: Seq<(Seq<char>, JsonV)>,
    states: Seq<(Seq<char>, bool)>,
)
    requires
        cfg.wf(),
    ensures
        ({
            let e1 = zed_entries(cfg, existing, states);
            zed_entries(cfg, e1, recorded_flags(e1, "enabled"@, true)) == e1
        }),
{
    let e1 = zed_entries(cfg, existing, states);
    let m1 = cfg.servers.map_values(|p: (Seq<char>, ServerDefinitionV)| (p.0, zed_server_value(p.1, lookup(states, p.0))));
    let u1 = unmanaged(cfg, existing);
    assert(e1 == m1 + u1);
    let states2 = recorded_flags(e1, "enabled"@, true);
    let m2 = cfg.servers.map_values(|p: (Seq<char>, ServerDefinitionV)| (p.0, zed_server_value(p.1, lookup(states2, p.0))));
    assert forall|i: int| 0 <= i < m1.len() implies #[trigger] m2[i] == m1[i] by {
        lemma_written_first(cfg, m1, u1, i);
        lemma_recorded_first(e1, i, "enabled"@, true);
        lemma_zed_flag(cfg.servers[i].1, lookup(states, cfg.servers[i].0));
    }
    assert(m2 =~= m1);
    assert forall|j: int| 0 <= j < m1.len() implies cfg.defines(#[trigger] m1[j].0) by {
        assert(cfg.servers[j].0 == m1[j].0);
    }
    lemma_unmanaged_again(cfg, m1, existing);
    assert(zed_entries(cfg, e1, states2) == m2 + unmanaged(cfg, e1));
}

/// The members before Antigravity's `disabled` flag never use that key.
proof fn lemma_antigravity_flag(s: ServerDefinitionV, rec: Option<bool>)
    ensures
        flag_value(antigravity_server_value(s, rec), "disabled"@, false) == antigravity_disabled(s, rec),
        antigravity_server_value(s, Some(antigravity_disabled(s, rec))) == antigravity_server_value(s, rec),
{
    reveal_strlit("disabled");
    reveal_strlit("serverUrl");
    reveal_strlit("command");
    reveal_strlit("args");
    reveal_strlit("env");
    reveal_strlit("type");
    let body = match s.remote_url() {
        Some(u) => seq![("serverUrl"@, JsonV::Str(u))],
        None => crate::targets::local_members(s) + if s.server_type == Some("stdio"@) {
            seq![("type"@, JsonV::Str("stdio"@))]
        } else {
            seq![]
        },
    };
    let tail = if antigravity_disabled(s, rec) {
        seq![("disabled"@, JsonV::Bool(true))]
    } else {
        seq![]
    };
    assert(antigravity_server_value(s, rec) == JsonV::Object(body + tail));
    assert forall|i: int| 0 <= i < body.len() implies (#[trigger] body[i]).0 != "disabled"@ by {
        assert(body[i].0.len() != 8 || body[i].0[0] != 'd');
    }
    lemma_lookup_concat(body, tail, "disabled"@);
    if antigravity_disabled(s, rec) {
        assert(lookup(tail, "disabled"@) == Some(JsonV::Bool(true)));
    }
}

/// Every entry of Antigravity's existing `mcpServers` that the configuration
/// does not define is in the new `mcpServers`, unchanged.
pub proof fn law_antigravity_keeps_unmanaged(cfg: CanonicalConfigV, existing: Option<JsonV>, j: int)
    requires
        0 <= j < existing_members(existing, "mcpServers"@).len(),
        !cfg.defines(existing_members(existing, "mcpServers"@)[j].0),
    ensures
        object_member(antigravity_doc(cfg, existing), "mcpServers"@) matches Some(o)
            && o.contains(existing_members(existing, "mcpServers"@)[j]),
{
    let ex = existing_members(existing, "mcpServers"@);
    let pred = |p: (Seq<char>, JsonV)| !cfg.defines(p.0);
    ex.lemma_filter_contains(pred, j);
    let states = recorded_flags(ex, "disabled"@, false);
    let m = cfg.servers.map_values(|p: (Seq<char>, ServerDefinitionV)| (p.0, antigravity_server_value(p.1, lookup(states, p.0))));
    let u = unmanaged(cfg, ex);
    let k = choose|k: int| 0 <= k < u.len() && u[k] == ex[j];
    assert((m + u)[m.len() + k] == ex[j]);
}

/// A server Antigravity has disabled (or enabled) keeps that state, whatever
/// the canonical definition says; one it does not list is disabled exactly
/// when the definition switches it off.
pub proof fn law_antigravity_state_survives(cfg: CanonicalConfigV, existing: Option<JsonV>, i: int)
    requires
        cfg.wf(),
        0 <= i < cfg.servers.len(),
    ensures
        object_member(antigravity_doc(cfg, existing), "mcpServers"@) matches Some(o)
            && lookup(o, cfg.servers[i].0) matches Some(v)
            && flag_value(v, "disabled"@, false) == antigravity_disabled(
                cfg.servers[i].1,
                lookup(recorded_flags(existing_members(existing, "mcpServers"@), "disabled"@, false), cfg.servers[i].0),
            ),
{
    let ex = existing_members(existing, "mcpServers"@);
    let states = recorded_flags(ex, "disabled"@, false);
    let m = cfg.servers.map_values(|p: (Seq<char>, ServerDefinitionV)| (p.0, antigravity_server_value(p.1, lookup(states, p.0))));
    let u = unmanaged(cfg, ex);
    lemma_written_first(cfg, m, u, i);
    lemma_lookup_index(m + u, cfg.servers[i].0, i);
    lemma_antigravity_flag(cfg.servers[i].1, lookup(states, cfg.servers[i].0));
}

/// Synchronizing Antigravity again over the document a synchronization
/// wrote gives the same document.
pub proof fn law_antigravity_idempotent(cfg: CanonicalConfigV, existing: Option<JsonV>)
    requires
        cfg.wf(),
    ensures
        antigravity_doc(cfg, Some(antigravity_doc(cfg, existing))) == antigravity_doc(cfg, existing),
{
    let ex = existing_members(existing, "mcpServers"@);
    let states1 = recorded_flags(ex, "disabled"@, false);
    let m1 = cfg.servers.map_values(|p: (Seq<char>, ServerDefinitionV)| (p.0, antigravity_server_value(p.1, lookup(states1, p.0))));
    let u1 = unmanaged(cfg, ex);
    let s1 = m1 + u1;
    let d1 = antigravity_doc(cfg, existing);
    assert(d1 == JsonV::Object(seq![("mcpServers"@, JsonV::Object(s1))]));
    assert(existing_members(Some(d1), "mcpServers"@) == s1);
    let states2 = recorded_flags(s1, "disabled"@, false);
    let m2 = cfg.servers.map_values(|p: (Seq<char>, ServerDefinitionV)| (p.0, antigravity_server_value(p.1, lookup(states2, p.0))));
    assert forall|i: int| 0 <= i < m1.len() implies #[trigger] m2[i] == m1[i] by {
        lemma_written_first(cfg, m1, u1, i);
        lemma_recorded_first(s1, i, "disabled"@, false);
        lemma_antigravity_flag(cfg.servers[i].1, lookup(states1, cfg.servers[i].0));
    }
    assert(m2 =~= m1);
    assert forall|j: int| 0 <= j < m1.len() implies cfg.defines(#[trigger] m1[j].0) by {
        assert(cfg.servers[j].0 == m1[j].0);
    }
    lemma_unmanaged_again(cfg, m1, ex);
    assert(antigravity_doc(cfg, Some(d1)) == JsonV::Object(seq![("mcpServers"@, JsonV::Object(m2 + unmanaged(cfg, s1)))]));
}

/// Every entry of Zed's existing `context_servers` that the configuration
/// does not define is in the merged entries, unchanged, and every canonical
/// server is there with the value Zed gets for it.
pub proof fn law_zed_keeps_unmanaged(
    cfg: CanonicalConfigV,
    existing: Seq<(Seq<char>, JsonV)>,
    states: Seq<(Seq<char>, bool)>,
    j: int,
)
    requires
        0 <= j < existing.len(),
        !cfg.defines(existing[j].0),
    ensures
        zed_entries(cfg, existing, states).contains(existing[j]),
{
    let pred = |p: (Seq<char>, JsonV)| !cfg.defines(p.0);
    existing.lemma_filter_contains(pred, j);
    let m = cfg.servers.map_values(|p: (Seq<char>, ServerDefinitionV)| (p.0, zed_server_value(p.1, lookup(states, p.0))));
    let u = unmanaged(cfg, existing);
    let k = choose|k: int| 0 <= k < u.len() && u[k] == existing[j];
    assert((m + u)[m.len() + k] == existing[j]);
}

proof fn lemma_codex_apply_other(
    start: Map<Seq<char>, TomlItem>,
    servers: Seq<(Seq<char>, ServerDefinitionV)>,
    root: Map<Seq<char>, TomlItem>,
    k: Seq<char>,
)
    requires
        k != mcp_key(),
    ensures
        codex_apply(start, servers, root).contains_key(k) == root.contains_key(k),
        root.contains_key(k) ==> codex_apply(start, servers, root)[k] == root[k],
    decreases servers.len(),
{
    if servers.len() > 0 {
        lemma_codex_apply_other(start, servers.drop_last(), root, k);
    }
}

proof fn lemma_codex_apply_table_like(
    start: Map<Seq<char>, TomlItem>,
    servers: Seq<(Seq<char>, ServerDefinitionV)>,
    root: Map<Seq<char>, TomlItem>,
)
    requires
        table_like_at(root, mcp_key()) is Some,
    ensures
        table_like_at(codex_apply(start, servers, root), mcp_key()) is Some,
        (codex_apply(start, servers, root)[mcp_key()] is Table) == (root[mcp_key()] is Table),
    decreases servers.len(),
{
    if servers.len() > 0 {
        lemma_codex_apply_table_like(start, servers.drop_last(), root);
    }
}

/// Writing servers of other names leaves an entry of `mcp_servers` as it was.
proof fn lemma_codex_apply_keeps_entry(
    start: Map<Seq<char>, TomlItem>,
    servers: Seq<(Seq<char>, ServerDefinitionV)>,
    root: Map<Seq<char>, TomlItem>,
    name: Seq<char>,
    v: TomlItem,
)
    requires
        forall|j: int| 0 <= j < servers.len() ==> (#[trigger] servers[j]).0 != name,
        table_like_at(root, mcp_key()) matches Some(m) && m.contains_key(name) && m[name] == v,
    ensures
        table_like_at(codex_apply(start, servers, root), mcp_key()) matches Some(m)
            && m.contains_key(name) && m[name] == v,
    decreases servers.len(),
{
    if servers.len() > 0 {
        let d = servers.drop_last();
        assert forall|j: int| 0 <= j < d.len() implies (#[trigger] d[j]).0 != name by {
            assert(d[j] == servers[j]);
        }
        lemma_codex_apply_keeps_entry(start, d, root, name, v);
        assert(servers.last().0 != name);
    }
}

proof fn lemma_codex_apply_concat(
    start: Map<Seq<char>, TomlItem>,
    a: Seq<(Seq<char>, ServerDefinitionV)>,
    b: Seq<(Seq<char>, ServerDefinitionV)>,
    root: Map<Seq<char>, TomlItem>,
)
    ensures
        codex_apply(start, a + b, root) == codex_apply(start, b, codex_apply(start, a, root)),
    decreases b.len(),
{
    if b.len() == 0 {
        assert(a + b =~= a);
    } else {
        assert((a + b).drop_last() =~= a + b.drop_last());
        lemma_codex_apply_concat(start, a, b.drop_last(), root);
    }
}

/// The `enabled` key a server's table ends with: absent when the server is
/// on, `false` when it is off.
proof fn lemma_edited_enabled(t: Map<Seq<char>, TomlItem>, s: ServerDefinitionV, en: bool)
    ensures
        en ==> !edited(t, codex_edits(s, en)).contains_key("enabled"@),
        !en ==> edited(t, codex_edits(s, en)).contains_key("enabled"@)
            && edited(t, codex_edits(s, en))["enabled"@] == TomlItem::Bool(false),
{
    let es = codex_edits(s, en);
    assert(es.len() > 0);
    if en {
        assert(es.last() == TomlEditV::Remove("enabled"@));
    } else {
        assert(es.last() == TomlEditV::Flag("enabled"@, false));
    }
}

/// The key an edit concerns.
spec fn edit_key(e: TomlEditV) -> Seq<char> {
    match e {
        TomlEditV::Remove(k) => k,
        TomlEditV::Str(k, _) => k,
        TomlEditV::List(k, _) => k,
        TomlEditV::Table(k, _) => k,
        TomlEditV::Flag(k, _) => k,
    }
}

/// The last of the edits that concerns key `k`.
spec fn last_edit(es: Seq<TomlEditV>, k: Seq<char>) -> Option<TomlEditV>
    decreases es.len(),
{
    if es.len() == 0 {
        None
    } else if edit_key(es.last()) == k {
        Some(es.last())
    } else {
        last_edit(es.drop_last(), k)
    }
}

/// After a run of edits, a key holds what its last edit gave it, or what it
/// held before when no edit concerns it.
proof fn lemma_edited_at(t: Map<Seq<char>, TomlItem>, es: Seq<TomlEditV>, k: Seq<char>)
    ensures
        match last_edit(es, k) {
            Some(e) => {
                let f = edit_entries(Map::empty(), e);
                &&& edited(t, es).contains_key(k) == f.contains_key(k)
                &&& f.contains_key(k) ==> edited(t, es)[k] == f[k]
            },
            None => {
                &&& edited(t, es).contains_key(k) == t.contains_key(k)
                &&& t.contains_key(k) ==> edited(t, es)[k] == t[k]
            },
        },
    decreases es.len(),
{
    if es.len() > 0 {
        lemma_edited_at(t, es.drop_last(), k);
    }
}

/// Applying the same edits a second time changes nothing.
proof fn lemma_edited_twice(t: Map<Seq<char>, TomlItem>, es: Seq<TomlEditV>)
    ensures
        edited(edited(t, es), es) == edited(t, es),
{
    let u = edited(t, es);
    let v = edited(u, es);
    assert forall|k: Seq<char>| #[trigger] v.dom().contains(k) == u.dom().contains(k) by {
        lemma_edited_at(t, es, k);
        lemma_edited_at(u, es, k);
    }
    assert forall|k: Seq<char>| #[trigger] v.dom().contains(k) implies v[k] == u[k] by {
        lemma_edited_at(t, es, k);
        lemma_edited_at(u, es, k);
    }
    assert(v =~= u);
}

/// The state Codex reads back from a server table the edits wrote is the
/// state they wrote.
proof fn lemma_state_of_edited(x: Map<Seq<char>, TomlItem>, n: Seq<char>, t0: Map<Seq<char>, TomlItem>, s: ServerDefinitionV, en: bool)
    requires
        sub_table(x, mcp_key(), n) == Some(edited(t0, codex_edits(s, en))),
    ensures
        codex_state(x, n) == Some(en),
{
    lemma_edited_enabled(t0, s, en);
}

/// A canonical server's entry that a further synchronization leaves as it
/// is: present under a table-like `mcp_servers`, and, when it is a standard
/// table, already carrying the edits for the state read back from it.
spec fn entry_settled(x: Map<Seq<char>, TomlItem>, n: Seq<char>, s: ServerDefinitionV) -> bool {
    &&& table_like_at(x, mcp_key()) matches Some(m) && m.contains_key(n)
    &&& sub_table(x, mcp_key(), n) matches Some(t)
        ==> edited(t, codex_edits(s, merged_flag(codex_state(x, n), s.enabled, true))) == t
}

proof fn lemma_settled_unchanged(x: Map<Seq<char>, TomlItem>, n: Seq<char>, s: ServerDefinitionV)
    requires
        entry_settled(x, n, s),
    ensures
        with_server(x, n, s, merged_flag(codex_state(x, n), s.enabled, true)) == x,
{
    let m = table_like_at(x, mcp_key())->Some_0;
    let parent = x[mcp_key()];
    let r1 = x.insert(mcp_key(), crate::targets::toml_doc::with_entries(parent, m));
    assert(r1 =~= x);
    match sub_table(x, mcp_key(), n) {
        Some(t) => {
            let m2 = m.insert(n, TomlItem::Table(t));
            assert(m2 =~= m);
            assert(x.insert(mcp_key(), TomlItem::Table(m2)) =~= x);
        },
        None => {},
    }
}

proof fn lemma_written_settled(x: Map<Seq<char>, TomlItem>, n: Seq<char>, s: ServerDefinitionV, en: bool)
    requires
        table_like_at(x, mcp_key()) is Some,
    ensures
        entry_settled(with_server(x, n, s, en), n, s),
{
    let m = table_like_at(x, mcp_key())->Some_0;
    let parent = x[mcp_key()];
    let m1 = if m.contains_key(n) { m } else { m.insert(n, crate::targets::toml_doc::new_child(parent)) };
    let r1 = x.insert(mcp_key(), crate::targets::toml_doc::with_entries(parent, m1));
    let w = with_server(x, n, s, en);
    match sub_table(r1, mcp_key(), n) {
        Some(t0) => {
            let t = edited(t0, codex_edits(s, en));
            assert(sub_table(w, mcp_key(), n) == Some(t));
            lemma_state_of_edited(w, n, t0, s, en);
            lemma_edited_twice(t0, codex_edits(s, en));
        },
        None => {
            assert(w == r1);
        },
    }
}

proof fn lemma_settled_kept(x: Map<Seq<char>, TomlItem>, n: Seq<char>, s: ServerDefinitionV, name: Seq<char>, s2: ServerDefinitionV, en: bool)
    requires
        entry_settled(x, n, s),
        name != n,
    ensures
        entry_settled(with_server(x, name, s2, en), n, s),
{
    let w = with_server(x, name, s2, en);
    let m = table_like_at(x, mcp_key())->Some_0;
    let parent = x[mcp_key()];
    let m1 = if m.contains_key(name) { m } else { m.insert(name, crate::targets::toml_doc::new_child(parent)) };
    let r1 = x.insert(mcp_key(), crate::targets::toml_doc::with_entries(parent, m1));
    assert(table_like_at(r1, mcp_key()) == Some(m1));
    assert(sub_table(r1, mcp_key(), n) == sub_table(x, mcp_key(), n));
    assert(codex_state(r1, n) == codex_state(x, n));
    match sub_table(r1, mcp_key(), name) {
        Some(t0) => {
            let m2 = m1.insert(name, TomlItem::Table(edited(t0, codex_edits(s2, en))));
            assert(w == r1.insert(mcp_key(), TomlItem::Table(m2)));
            assert(table_like_at(w, mcp_key()) == Some(m2));
            assert(sub_table(w, mcp_key(), n) == sub_table(x, mcp_key(), n));
            assert(codex_state(w, n) == codex_state(x, n));
        },
        None => {
            assert(w == r1);
        },
    }
}

/// After a synchronization every canonical server's entry is settled.
proof fn lemma_apply_settled(
    start: Map<Seq<char>, TomlItem>,
    servers: Seq<(Seq<char>, ServerDefinitionV)>,
    root: Map<Seq<char>, TomlItem>,
)
    requires
        table_like_at(root, mcp_key()) is Some,
        crate::config::keys_unique(servers),
    ensures
        forall|i: int| 0 <= i < servers.len()
            ==> entry_settled(codex_apply(start, servers, root), #[trigger] servers[i].0, servers[i].1),
    decreases servers.len(),
{
    if servers.len() > 0 {
        let d = servers.drop_last();
        let x = codex_apply(start, d, root);
        lemma_apply_settled(start, d, root);
        lemma_codex_apply_table_like(start, d, root);
        let (n, s) = servers.last();
        let en = merged_flag(codex_state(start, n), s.enabled, true);
        lemma_written_settled(x, n, s, en);
        assert forall|i: int| 0 <= i < servers.len()
            implies entry_settled(codex_apply(start, servers, root), #[trigger] servers[i].0, servers[i].1) by {
            if i < servers.len() - 1 {
                assert(d[i] == servers[i]);
                lemma_settled_kept(x, servers[i].0, servers[i].1, n, s, en);
            }
        }
    }
}

/// A document whose canonical entries are all settled is a fixed point of
/// writing those servers again, each with the state read back from it.
proof fn lemma_apply_settled_fixed(
    d: Map<Seq<char>, TomlItem>,
    servers: Seq<(Seq<char>, ServerDefinitionV)>,
)
    requires
        forall|i: int| 0 <= i < servers.len() ==> entry_settled(d, #[trigger] servers[i].0, servers[i].1),
    ensures
        codex_apply(d, servers, d) == d,
    decreases servers.len(),
{
    if servers.len() > 0 {
        let t = servers.drop_last();
        assert forall|i: int| 0 <= i < t.len() implies entry_settled(d, #[trigger] t[i].0, t[i].1) by {
            assert(t[i] == servers[i]);
        }
        lemma_apply_settled_fixed(d, t);
        let last = servers.len() - 1;
        assert(entry_settled(d, servers[last].0, servers[last].1));
        lemma_settled_unchanged(d, servers.last().0, servers.last().1);
    }
}

/// Synchronizing Codex is idempotent: with the same configuration, a second
/// run over the document the first one wrote (read back as it was written)
/// writes that same document, every server in the state it was left in.
pub proof fn law_codex_update_idempotent(cfg: CanonicalConfigV, existing: Option<Seq<char>>, again: Seq<char>)
    requires
        cfg.wf(),
    ensures
        codex_update(cfg, existing) matches Ok(d) ==> {
            &&& codex_apply(d, cfg.servers, codex_prepared(d)) == d
            &&& toml_parsed(again) == Some(d) ==> codex_update(cfg, Some(again)) == Ok::<Map<Seq<char>, TomlItem>, Seq<char>>(d)
        },
{
    let start = codex_start(existing);
    let r0 = codex_prepared(start);
    if table_like_at(r0, mcp_key()) is Some {
        crate::json_text::lemma_ascending_unique(cfg.servers);
        let d = codex_apply(start, cfg.servers, r0);
        lemma_apply_settled(start, cfg.servers, r0);
        lemma_codex_apply_table_like(start, cfg.servers, r0);
        assert(codex_prepared(d) == d);
        lemma_apply_settled_fixed(d, cfg.servers);
    }
}

proof fn lemma_last_edit_concat(a: Seq<TomlEditV>, b: Seq<TomlEditV>, k: Seq<char>)
    ensures
        last_edit(a + b, k) == if last_edit(b, k) is Some { last_edit(b, k) } else { last_edit(a, k) },
    decreases b.len(),
{
    if b.len() == 0 {
        assert(a + b =~= a);
    } else {
        assert((a + b).drop_last() =~= a + b.drop_last());
        assert((a + b).last() == b.last());
        lemma_last_edit_concat(a, b.drop_last(), k);
    }
}

proof fn lemma_last_edit_one(e: TomlEditV, k: Seq<char>)
    ensures
        last_edit(seq![e], k) == if edit_key(e) == k { Some(e) } else { None },
{
    let z = Seq::<TomlEditV>::empty();
    assert(seq![e].drop_last() =~= z);
    assert(last_edit(z, k) is None);
    assert(seq![e].last() == e);
}

proof fn lemma_last_edit_opt(o: Option<TomlEditV>, k: Seq<char>)
    ensures
        last_edit(match o { Some(e) => seq![e], None => seq![] }, k)
            == match o { Some(e) => if edit_key(e) == k { Some(e) } else { None }, None => None },
{
    if let Some(e) = o {
        lemma_last_edit_one(e, k);
    }
}

/// What a Codex server table holds after a synchronization wrote server `s`
/// into it with state `en`: for a remote server its URL and, when defined,
/// its headers, and no `command`, `args` or `env`; for a local server no
/// `url` or `http_headers`, and the command, arguments and environment
/// wherever defined; `env_vars` wherever defined; `enabled = false` exactly
/// when off.
pub open spec fn codex_table_as_defined(r: Map<Seq<char>, TomlItem>, s: ServerDefinitionV, en: bool) -> bool {
    &&& match s.remote_url() {
        Some(u) => {
            &&& !r.contains_key("command"@)
            &&& !r.contains_key("args"@)
            &&& !r.contains_key("env"@)
            &&& r.contains_key("url"@) && r["url"@] == TomlItem::Str(u)
            &&& s.header_map() matches Some(h) ==> r.contains_key("http_headers"@)
                && r["http_headers"@] == TomlItem::Table(pairs_table(h))
        },
        None => {
            &&& !r.contains_key("url"@)
            &&& !r.contains_key("http_headers"@)
            &&& s.command matches Some(c) ==> r.contains_key("command"@) && r["command"@] == TomlItem::Str(c)
            &&& s.args matches Some(a) ==> r.contains_key("args"@) && r["args"@] == TomlItem::Strs(a)
            &&& s.env matches Some(e) ==> r.contains_key("env"@) && r["env"@] == TomlItem::Table(pairs_table(e))
        },
    }
    &&& s.env_vars matches Some(v) ==> r.contains_key("env_vars"@) && r["env_vars"@] == TomlItem::Strs(v)
    &&& en ==> !r.contains_key("enabled"@)
    &&& !en ==> r.contains_key("enabled"@) && r["enabled"@] == TomlItem::Bool(false)
}

/// The edits Codex makes for a server leave its table describing that
/// server and no other kind: whatever the table held before, a remote
/// server's table ends with its URL and without a command, arguments or
/// environment, and a local server's without a URL or headers.
pub proof fn law_codex_edits_as_defined(t: Map<Seq<char>, TomlItem>, s: ServerDefinitionV, en: bool)
    ensures
        codex_table_as_defined(edited(t, codex_edits(s, en)), s, en),
{
    reveal_strlit("command");
    reveal_strlit("args");
    reveal_strlit("env");
    reveal_strlit("url");
    reveal_strlit("http_headers");
    reveal_strlit("env_vars");
    reveal_strlit("enabled");
    assert("command"@[0] != "args"@[0] && "env"@[0] != "url"@[0] && "env_vars"@[3] != "enabled"@[3]);
    assert("env"@.len() != "env_vars"@.len() && "env"@.len() != "enabled"@.len());
    assert("env"@.len() != "http_headers"@.len() && "env"@.len() != "command"@.len() && "env"@.len() != "args"@.len());
    assert("env"@ != "url"@ && "env"@ != "env_vars"@ && "env"@ != "enabled"@ && "env"@ != "http_headers"@);
    let es = codex_edits(s, en);
    let vars_o = match s.env_vars { Some(v) => Some(TomlEditV::List("env_vars"@, v)), None => None };
    let vars = match vars_o { Some(e) => seq![e], None => seq![] };
    let fe = if en { TomlEditV::Remove("enabled"@) } else { TomlEditV::Flag("enabled"@, false) };
    let flag = seq![fe];
    let endpoint = match s.remote_url() {
        Some(u) => {
            let hdr_o = match s.header_map() { Some(h) => Some(TomlEditV::Table("http_headers"@, h)), None => None };
            seq![TomlEditV::Remove("command"@)] + seq![TomlEditV::Remove("args"@)] + seq![TomlEditV::Remove("env"@)]
                + seq![TomlEditV::Str("url"@, u)] + match hdr_o { Some(e) => seq![e], None => seq![] }
        },
        None => {
            let c_o = match s.command { Some(c) => Some(TomlEditV::Str("command"@, c)), None => None };
            let a_o = match s.args { Some(a) => Some(TomlEditV::List("args"@, a)), None => None };
            let e_o = match s.env { Some(e) => Some(TomlEditV::Table("env"@, e)), None => None };
            seq![TomlEditV::Remove("url"@)] + seq![TomlEditV::Remove("http_headers"@)]
                + match c_o { Some(e) => seq![e], None => seq![] }
                + match a_o { Some(e) => seq![e], None => seq![] }
                + match e_o { Some(e) => seq![e], None => seq![] }
        },
    };
    assert(es =~= endpoint + vars + flag);
    let keys = seq!["command"@, "args"@, "env"@, "url"@, "http_headers"@, "env_vars"@, "enabled"@];
    assert forall|j: int| 0 <= j < keys.len() implies #[trigger] last_edit(es, keys[j]) == if last_edit(flag, keys[j]) is Some {
        last_edit(flag, keys[j])
    } else if last_edit(vars, keys[j]) is Some {
        last_edit(vars, keys[j])
    } else {
        last_edit(endpoint, keys[j])
    } by {
        lemma_last_edit_concat(endpoint + vars, flag, keys[j]);
        lemma_last_edit_concat(endpoint, vars, keys[j]);
    }
    assert forall|j: int| 0 <= j < keys.len() implies #[trigger] last_edit(flag, keys[j])
        == if keys[j] == "enabled"@ { Some(fe) } else { None } by {
        lemma_last_edit_one(fe, keys[j]);
    }
    assert forall|j: int| 0 <= j < keys.len() implies #[trigger] last_edit(vars, keys[j])
        == if keys[j] == "env_vars"@ && vars_o is Some { vars_o } else { None } by {
        lemma_last_edit_opt(vars_o, keys[j]);
    }
    match s.remote_url() {
        Some(u) => {
            let hdr_o = match s.header_map() { Some(h) => Some(TomlEditV::Table("http_headers"@, h)), None => None };
            let p1 = seq![TomlEditV::Remove("command"@)];
            let p2 = seq![TomlEditV::Remove("args"@)];
            let p3 = seq![TomlEditV::Remove("env"@)];
            let p4 = seq![TomlEditV::Str("url"@, u)];
            let p5 = match hdr_o { Some(e) => seq![e], None => seq![] };
            assert forall|j: int| 0 <= j < keys.len() implies #[trigger] last_edit(endpoint, keys[j]) == if keys[j] == "http_headers"@ && hdr_o is Some {
                hdr_o
            } else if keys[j] == "url"@ {
                Some(TomlEditV::Str("url"@, u))
            } else if keys[j] == "env"@ {
                Some(TomlEditV::Remove("env"@))
            } else if keys[j] == "args"@ {
                Some(TomlEditV::Remove("args"@))
            } else if keys[j] == "command"@ {
                Some(TomlEditV::Remove("command"@))
            } else {
                None
            } by {
                let k = keys[j];
                lemma_last_edit_concat(p1 + p2 + p3 + p4, p5, k);
                lemma_last_edit_concat(p1 + p2 + p3, p4, k);
                lemma_last_edit_concat(p1 + p2, p3, k);
                lemma_last_edit_concat(p1, p2, k);
                lemma_last_edit_one(TomlEditV::Remove("command"@), k);
                lemma_last_edit_one(TomlEditV::Remove("args"@), k);
                lemma_last_edit_one(TomlEditV::Remove("env"@), k);
                lemma_last_edit_one(TomlEditV::Str("url"@, u), k);
                lemma_last_edit_opt(hdr_o, k);
            }
        },
        None => {
            let c_o = match s.command { Some(c) => Some(TomlEditV::Str("command"@, c)), None => None };
            let a_o = match s.args { Some(a) => Some(TomlEditV::List("args"@, a)), None => None };
            let e_o = match s.env { Some(e) => Some(TomlEditV::Table("env"@, e)), None => None };
            let p1 = seq![TomlEditV::Remove("url"@)];
            let p2 = seq![TomlEditV::Remove("http_headers"@)];
            let p3 = match c_o { Some(e) => seq![e], None => seq![] };
            let p4 = match a_o { Some(e) => seq![e], None => seq![] };
            let p5 = match e_o { Some(e) => seq![e], None => seq![] };
            assert forall|j: int| 0 <= j < keys.len() implies #[trigger] last_edit(endpoint, keys[j]) == if keys[j] == "env"@ && e_o is Some {
                e_o
            } else if keys[j] == "args"@ && a_o is Some {
                a_o
            } else if keys[j] == "command"@ && c_o is Some {
                c_o
            } else if keys[j] == "http_headers"@ {
                Some(TomlEditV::Remove("http_headers"@))
            } else if keys[j] == "url"@ {
                Some(TomlEditV::Remove("url"@))
            } else {
                None
            } by {
                let k = keys[j];
                lemma_last_edit_concat(p1 + p2 + p3 + p4, p5, k);
                lemma_last_edit_concat(p1 + p2 + p3, p4, k);
                lemma_last_edit_concat(p1 + p2, p3, k);
                lemma_last_edit_concat(p1, p2, k);
                lemma_last_edit_one(TomlEditV::Remove("url"@), k);
                lemma_last_edit_one(TomlEditV::Remove("http_headers"@), k);
                lemma_last_edit_opt(c_o, k);
                lemma_last_edit_opt(a_o, k);
                lemma_last_edit_opt(e_o, k);
            }
        },
    }
    assert forall|j: int| 0 <= j < keys.len() implies ({
        let k = #[trigger] keys[j];
        match last_edit(es, k) {
            Some(e) => {
                let f = edit_entries(Map::empty(), e);
                &&& edited(t, es).contains_key(k) == f.contains_key(k)
                &&& f.contains_key(k) ==> edited(t, es)[k] == f[k]
            },
            None => true,
        }
    }) by {
        lemma_edited_at(t, es, keys[j]);
    }
    assert(keys[0] == "command"@ && keys[1] == "args"@ && keys[2] == "env"@ && keys[3] == "url"@);
    assert(keys[4] == "http_headers"@ && keys[5] == "env_vars"@ && keys[6] == "enabled"@);
}

/// Every top-level key of the file other than `mcp_servers` (models,
/// approvals, projects, ...) keeps its value through a Codex synchronization.
pub proof fn law_codex_keeps_other_blocks(cfg: CanonicalConfigV, existing: Option<Seq<char>>, k: Seq<char>)
    requires
        k != mcp_key(),
    ensures
        codex_update(cfg, existing) matches Ok(d) ==> {
            &&& d.contains_key(k) == codex_start(existing).contains_key(k)
            &&& d.contains_key(k) ==> d[k] == codex_start(existing)[k]
        },
{
    let start = codex_start(existing);
    lemma_codex_apply_other(start, cfg.servers, codex_prepared(start), k);
}

/// Every server Codex lists that the configuration does not define keeps
/// its entry unchanged.
pub proof fn law_codex_keeps_unmanaged(cfg: CanonicalConfigV, existing: Option<Seq<char>>, name: Seq<char>)
    requires
        !cfg.defines(name),
        table_like_at(codex_start(existing), mcp_key()) matches Some(m0) && m0.contains_key(name),
    ensures
        codex_update(cfg, existing) matches Ok(d) ==> table_like_at(d, mcp_key()) matches Some(m)
            && m.contains_key(name)
            && m[name] == table_like_at(codex_start(existing), mcp_key())->Some_0[name],
{
    let start = codex_start(existing);
    let m0 = table_like_at(start, mcp_key())->Some_0;
    assert(codex_prepared(start) == start);
    assert forall|j: int| 0 <= j < cfg.servers.len() implies (#[trigger] cfg.servers[j]).0 != name by {
        if cfg.servers[j].0 == name {
            assert(has_key(cfg.servers, name));
        }
    }
    lemma_codex_apply_keeps_entry(start, cfg.servers, start, name, m0[name]);
}

/// A canonical server's Codex table ends up switched off (`enabled =
/// false`) exactly when the state Codex recorded, else the definition's,
/// says off; when on, the table holds no `enabled` key.
pub proof fn law_codex_state_survives(cfg: CanonicalConfigV, existing: Option<Seq<char>>, i: int)
    requires
        cfg.wf(),
        0 <= i < cfg.servers.len(),
    ensures
        codex_update(cfg, existing) matches Ok(d) ==> (sub_table(d, mcp_key(), cfg.servers[i].0) matches Some(t) ==> {
            let on = merged_flag(codex_state(codex_start(existing), cfg.servers[i].0), cfg.servers[i].1.enabled, true);
            &&& on ==> !t.contains_key("enabled"@)
            &&& !on ==> t.contains_key("enabled"@) && t["enabled"@] == TomlItem::Bool(false)
        }),
{
    let start = codex_start(existing);
    let r0 = codex_prepared(start);
    crate::json_text::lemma_ascending_unique(cfg.servers);
    if table_like_at(r0, mcp_key()) is Some {
        let sv = cfg.servers;
        let n = sv[i].0;
        let s = sv[i].1;
        let a = sv.subrange(0, i);
        let b = sv.subrange(i + 1, sv.len() as int);
        assert(sv =~= a.push(sv[i]) + b);
        lemma_codex_apply_concat(start, a.push(sv[i]), b, r0);
        assert(a.push(sv[i]).drop_last() =~= a);
        let ri = codex_apply(start, a, r0);
        lemma_codex_apply_table_like(start, a, r0);
        let on = merged_flag(codex_state(start, n), s.enabled, true);
        let rj = with_server(ri, n, s, on);
        assert(codex_apply(start, a.push(sv[i]), r0) == rj);
        assert forall|j: int| 0 <= j < b.len() implies (#[trigger] b[j]).0 != n by {
            assert(b[j] == sv[i + 1 + j]);
        }
        let m = table_like_at(rj, mcp_key())->Some_0;
        assert(table_like_at(rj, mcp_key()) is Some);
        assert(m.contains_key(n));
        lemma_codex_apply_keeps_entry(start, b, rj, n, m[n]);
        lemma_codex_apply_table_like(start, b, rj);
        let fin = codex_apply(start, b, rj);
        match sub_table(fin, mcp_key(), n) {
            Some(t) => {
                assert(rj[mcp_key()] is Table);
                assert(m[n] == TomlItem::Table(t));
                assert(sub_table(rj, mcp_key(), n) == Some(t));
                let mi = table_like_at(ri, mcp_key())->Some_0;
                let parent = ri[mcp_key()];
                let m1 = if mi.contains_key(n) { mi } else { mi.insert(n, crate::targets::toml_doc::new_child(parent)) };
                let r1 = ri.insert(mcp_key(), crate::targets::toml_doc::with_entries(parent, m1));
                match sub_table(r1, mcp_key(), n) {
                    Some(t0) => {
                        assert(t == edited(t0, codex_edits(s, on)));
                        lemma_edited_enabled(t0, s, on);
                    },
                    None => {
                        assert(rj == r1);
                    },
                }
            },
            None => {},
        }
    }
}

/// After a Codex synchronization, the table of every canonical server that
/// is a standard table describes that server as defined: a remote server's
/// its URL and no command, arguments or environment; a local server's no
/// URL or headers, and its command, arguments and environment.
pub proof fn law_codex_tables_as_defined(cfg: CanonicalConfigV, existing: Option<Seq<char>>, i: int)
    requires
        cfg.wf(),
        0 <= i < cfg.servers.len(),
    ensures
        codex_update(cfg, existing) matches Ok(d) ==> (sub_table(d, mcp_key(), cfg.servers[i].0) matches Some(t)
            ==> codex_table_as_defined(t, cfg.servers[i].1,
                merged_flag(codex_state(codex_start(existing), cfg.servers[i].0), cfg.servers[i].1.enabled, true))),
{
    let start = codex_start(existing);
    let r0 = codex_prepared(start);
    crate::json_text::lemma_ascending_unique(cfg.servers);
    if table_like_at(r0, mcp_key()) is Some {
        let sv = cfg.servers;
        let n = sv[i].0;
        let s = sv[i].1;
        let a = sv.subrange(0, i);
        let b = sv.subrange(i + 1, sv.len() as int);
        assert(sv =~= a.push(sv[i]) + b);
        lemma_codex_apply_concat(start, a.push(sv[i]), b, r0);
        assert(a.push(sv[i]).drop_last() =~= a);
        let ri = codex_apply(start, a, r0);
        lemma_codex_apply_table_like(start, a, r0);
        let on = merged_flag(codex_state(start, n), s.enabled, true);
        let rj = with_server(ri, n, s, on);
        assert(codex_apply(start, a.push(sv[i]), r0) == rj);
        assert forall|j: int| 0 <= j < b.len() implies (#[trigger] b[j]).0 != n by {
            assert(b[j] == sv[i + 1 + j]);
        }
        let m = table_like_at(rj, mcp_key())->Some_0;
        assert(table_like_at(rj, mcp_key()) is Some);
        assert(m.contains_key(n));
        lemma_codex_apply_keeps_entry(start, b, rj, n, m[n]);
        lemma_codex_apply_table_like(start, b, rj);
        let fin = codex_apply(start, b, rj);
        match sub_table(fin, mcp_key(), n) {
            Some(t) => {
                assert(rj[mcp_key()] is Table);
                assert(m[n] == TomlItem::Table(t));
                assert(sub_table(rj, mcp_key(), n) == Some(t));
                let mi = table_like_at(ri, mcp_key())->Some_0;
                let parent = ri[mcp_key()];
                let m1 = if mi.contains_key(n) { mi } else { mi.insert(n, crate::targets::toml_doc::new_child(parent)) };
                let r1 = ri.insert(mcp_key(), crate::targets::toml_doc::with_entries(parent, m1));
                match sub_table(r1, mcp_key(), n) {
                    Some(t0) => {
                        assert(t == edited(t0, codex_edits(s, on)));
                        law_codex_edits_as_defined(t0, s, on);
                    },
                    None => {
                        assert(rj == r1);
                    },
                }
            },
            None => {},
        }
    }
}

/// When Zed's settings have a `context_servers` block, synchronization
/// replaces that block and nothing else: the text before and after it
/// (other settings, comments, formatting) is kept as it is.
pub proof fn law_zed_splice_keeps_rest(content: Seq<char>, block: Seq<char>)
    requires
        context_servers_span(encode_utf8(content)) is Some,
    ensures
        ({
            let b = encode_utf8(content);
            let (s, e) = context_servers_span(b)->Some_0;
            let before = decode_utf8(b.subrange(0, s));
            let after = decode_utf8(b.subrange(e, b.len() as int));
            &&& content == before + decode_utf8(b.subrange(s, e)) + after
            &&& spliced_settings(content, block) == Some(before + block + after)
        }),
{
    let b = encode_utf8(content);
    encode_utf8_valid_utf8(content);
    encode_utf8_decode_utf8(content);
    lemma_span_shape(b);
    lemma_span_boundaries(b);
    let (s, e) = context_servers_span(b)->Some_0;
    valid_utf8_split(b, e);
    decode_utf8_split(b, e);
    let p = b.subrange(0, e);
    assert(p[s] == b[s]);
    assert(b.subrange(s, s + 17)[0] == b[s]);
    assert(b[s] == 0x22u8);
    is_char_boundary_iff_not_is_continuation_byte(p, s);
    decode_utf8_split(p, s);
    assert(p.subrange(0, s) =~= b.subrange(0, s));
    assert(p.subrange(s, p.len() as int) =~= b.subrange(s, e));
}

/// A server Zed has switched on or off keeps that state in the merged
/// entries, whatever the canonical definition says; a server Zed does not
/// list gets the definition's state, else on.
pub proof fn law_zed_state_survives(
    cfg: CanonicalConfigV,
    existing: Seq<(Seq<char>, JsonV)>,
    states: Seq<(Seq<char>, bool)>,
    i: int,
)
    requires
        cfg.wf(),
        0 <= i < cfg.servers.len(),
    ensures
        lookup(zed_entries(cfg, existing, states), cfg.servers[i].0) matches Some(v)
            && flag_value(v, "enabled"@, true) == merged_flag(lookup(states, cfg.servers[i].0), cfg.servers[i].1.enabled, true),
{
    let m = cfg.servers.map_values(|p: (Seq<char>, ServerDefinitionV)| (p.0, zed_server_value(p.1, lookup(states, p.0))));
    let u = unmanaged(cfg, existing);
    lemma_written_first(cfg, m, u, i);
    lemma_lookup_index(m + u, cfg.servers[i].0, i);
    lemma_zed_flag(cfg.servers[i].1, lookup(states, cfg.servers[i].0));
}

} // verus!
