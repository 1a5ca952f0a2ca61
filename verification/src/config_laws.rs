use vstd::prelude::*;
use crate::config::{
    PacksView, ProfileView, config_document, hijack_dns_rule, private_rule, proxy_processes,
    route_block, route_rule_sets, route_rules, rule_mode, server_bypass_rule, sniff_rule,
    geo_rules_contribution,
};
use crate::config::{bad_uuid_char, dashes_in_place, utf8_len, validate_uuid_spec};
use crate::json::{JsonView, field, items_of, jnum, jstr, lemma_member_absent, lemma_member_at};
use crate::text::{is_ascii_hex, lemma_first_index, lemma_first_index_bound};
use crate::routing::RulesView;
use crate::config::profile_from_parts;
use crate::vless_url::{UrlPartsView, query_value};

verus! {

/// Whatever the rules, the route begins by sniffing, answering DNS, sending
/// traffic for the VLESS server itself direct (so it cannot loop through
/// the tunnel), and sending private addresses direct.
pub proof fn law_route_starts_with_bypasses(server: Seq<char>, rules: Option<RulesView>, packs: PacksView)
    ensures
        route_rules(server, rules, packs).len() >= 4,
        route_rules(server, rules, packs).subrange(0, 4) == seq![
            sniff_rule(),
            hijack_dns_rule(),
            server_bypass_rule(server),
            private_rule(),
        ],
{
    let base = seq![sniff_rule(), hijack_dns_rule(), server_bypass_rule(server), private_rule()];
    let r = route_rules(server, rules, packs);
    assert(r.len() >= 4);
    assert forall|i: int| 0 <= i < 4 implies r[i] == base[i] by {}
    assert(r.subrange(0, 4) =~= base);
}

/// In global mode the lists of the rules play no part: the document is the
/// one built without any rules, and everything not bypassed goes through
/// the proxy.
pub proof fn law_global_mode_ignores_rule_lists(pr: ProfileView, rules: RulesView, packs: PacksView)
    requires
        !rule_mode(Some(rules)),
    ensures
        config_document(pr, Some(rules), packs) == config_document(pr, None, packs),
        route_block(pr.server, Some(rules), packs) == route_block(pr.server, None, packs),
{
    assert(proxy_processes(Some(rules)) =~= proxy_processes(None));
    assert(route_rules(pr.server, Some(rules), packs) =~= route_rules(pr.server, None, packs));
    assert(route_rule_sets(Some(rules), packs) =~= route_rule_sets(None, packs));
}

/// Traffic that no rule selects goes direct in rule mode and through the
/// proxy otherwise.
pub proof fn law_default_outbound(server: Seq<char>, rules: Option<RulesView>, packs: PacksView)
    ensures
        route_block(server, rules, packs)->Object_0[3] == (
            "final"@,
            jstr(if rule_mode(rules) { "direct"@ } else { "proxy"@ }),
        ),
{
}

/// An existing outside pack is always routed direct, in either mode, and
/// comes first among the rule sets.
pub proof fn law_outside_pack_goes_direct(server: Seq<char>, rules: Option<RulesView>, packs: PacksView)
    requires
        packs.outside is Some,
    ensures
        route_rules(server, rules, packs).contains(
            JsonView::Object(seq![("rule_set"@, JsonView::Array(seq![jstr("outside-pack"@)])), ("outbound"@, jstr("direct"@))]),
        ),
        route_rule_sets(rules, packs).len() > 0,
        route_rule_sets(rules, packs)[0] == crate::config::local_rule_set("outside-pack"@, packs.outside->Some_0),
{
    let base = seq![sniff_rule(), hijack_dns_rule(), server_bypass_rule(server), private_rule()];
    let procs = proxy_processes(rules);
    let a = if procs.len() > 0 {
        base.push(crate::config::outbound_rule("process_name"@, crate::json::str_items(procs), "proxy"@))
    } else {
        base
    };
    let rule = crate::config::outbound_rule("rule_set"@, seq![jstr("outside-pack"@)], "direct"@);
    let b = a.push(rule);
    assert(b[a.len() as int] == rule);
    let r = route_rules(server, rules, packs);
    if rule_mode(rules) {
        let rv = rules->Some_0;
        let c = if rv.domains.len() > 0 {
            b.push(crate::config::outbound_rule("domain_suffix"@, crate::json::str_items(rv.domains), "proxy"@))
        } else {
            b
        };
        assert(c[a.len() as int] == rule);
        let tags = geo_rules_contribution(rv.geo_rules, packs.inside).1;
        if rv.geo_rules.len() > 0 && tags.len() > 0 {
            assert(r[a.len() as int] == c[a.len() as int]);
        }
        assert(r[a.len() as int] == rule);
    } else {
        assert(r[a.len() as int] == rule);
    }
    let outside = seq![crate::config::local_rule_set("outside-pack"@, packs.outside->Some_0)];
    if rule_mode(rules) && rules->Some_0.geo_rules.len() > 0 {
        let g = geo_rules_contribution(rules->Some_0.geo_rules, packs.inside).0;
        assert((outside + g)[0] == outside[0]);
    }
}


/// The processes sent through the proxy take precedence over every rule but
/// the four bypasses: their rule comes fifth, before the outside pack and
/// the domain and geo rules. In rule mode the Telegram and Discord presets
/// add their executables to those processes.
pub proof fn law_process_rule_has_priority(server: Seq<char>, rules: Option<RulesView>, packs: PacksView)
    ensures
        proxy_processes(rules).len() > 0 ==> route_rules(server, rules, packs)[4] == crate::config::outbound_rule(
            "process_name"@,
            crate::json::str_items(proxy_processes(rules)),
            "proxy"@,
        ),
        rule_mode(rules) && rules->Some_0.geo_rules.contains("telegram_combo"@) ==> proxy_processes(rules).contains("telegram.exe"@),
        rule_mode(rules) && rules->Some_0.geo_rules.contains("discord_combo"@) ==> proxy_processes(rules).contains("discord.exe"@),
{
    let procs = proxy_processes(rules);
    if procs.len() > 0 {
        let base = seq![sniff_rule(), hijack_dns_rule(), server_bypass_rule(server), private_rule()];
        let rule = crate::config::outbound_rule("process_name"@, crate::json::str_items(procs), "proxy"@);
        let a = base.push(rule);
        assert(a[4] == rule);
        let r = route_rules(server, rules, packs);
        assert(r[4] == a[4]);
    }
    if rule_mode(rules) {
        let rv = rules->Some_0;
        let with_tg = if rv.geo_rules.contains("telegram_combo"@) {
            rv.processes.push("telegram.exe"@)
        } else {
            rv.processes
        };
        if rv.geo_rules.contains("telegram_combo"@) {
            assert(with_tg[with_tg.len() - 1] == "telegram.exe"@);
            assert(procs[with_tg.len() - 1] == "telegram.exe"@);
        }
        if rv.geo_rules.contains("discord_combo"@) {
            assert(procs[procs.len() - 1] == "discord.exe"@);
        }
    }
}


/// The canonical textual form of a UUID: 36 characters, dashes exactly at
/// positions 8, 13, 18 and 23, hex digits everywhere else.
pub open spec fn canonical_uuid(s: Seq<char>) -> bool {
    &&& s.len() == 36
    &&& forall|i: int| 0 <= i < 36 ==> ((#[trigger] s[i] == '-') <==> (i == 8 || i == 13 || i == 18 || i == 23))
    &&& forall|i: int| 0 <= i < 36 && !(i == 8 || i == 13 || i == 18 || i == 23) ==> is_ascii_hex(#[trigger] s[i])
}

/// A text is accepted as a UUID exactly when it has the canonical form
/// `xxxxxxxx-xxxx-xxxx-xxxx-xxxxxxxxxxxx` of hex digits (for every text a
/// `str` can hold, whose UTF-8 length fits in `usize`).
pub proof fn law_uuid_accepts_exactly_canonical_form(s: Seq<char>)
    requires
        vstd::utf8::encode_utf8(s).len() <= usize::MAX,
    ensures
        validate_uuid_spec(s) is Ok <==> canonical_uuid(s),
{
    let n = vstd::utf8::encode_utf8(s).len();
    assert(utf8_len(s) == n);
    if validate_uuid_spec(s) is Ok {
        lemma_first_index_bound(s, bad_uuid_char());
        assert forall|i: int| 0 <= i < s.len() implies '\0' <= #[trigger] s[i] <= '\u{7f}' by {
            assert(!bad_uuid_char()(s[i]));
        }
        assert(vstd::utf8::is_ascii_chars(s));
        vstd::utf8::is_ascii_chars_encode_utf8(s);
        assert(s.len() == 36);
        assert forall|i: int| 0 <= i < 36 && !(i == 8 || i == 13 || i == 18 || i == 23) implies is_ascii_hex(#[trigger] s[i]) by {
            assert(!bad_uuid_char()(s[i]));
        }
    }
    if canonical_uuid(s) {
        assert forall|i: int| 0 <= i < s.len() implies !bad_uuid_char()(#[trigger] s[i]) by {
            if !(i == 8 || i == 13 || i == 18 || i == 23) {
                assert(is_ascii_hex(s[i]));
            }
        }
        assert forall|i: int| 0 <= i < s.len() implies '\0' <= #[trigger] s[i] <= '\u{7f}' by {
            assert(!bad_uuid_char()(s[i]));
        }
        assert(vstd::utf8::is_ascii_chars(s));
        vstd::utf8::is_ascii_chars_encode_utf8(s);
        assert(dashes_in_place(s));
        lemma_first_index(s, bad_uuid_char(), s.len() as int);
    }
}


// ------------------------------------------------------------------
// Reading the profile out of a URL
// ------------------------------------------------------------------

/// The pair at `k` is the last one named `key`.
pub open spec fn last_pair_at(q: Seq<(Seq<char>, Seq<char>)>, key: Seq<char>, k: int) -> bool {
    &&& 0 <= k < q.len()
    &&& q[k].0 == key
    &&& forall|j: int| k < j < q.len() ==> (#[trigger] q[j]).0 != key
}

/// No pair is named `key`.
pub open spec fn no_pair(q: Seq<(Seq<char>, Seq<char>)>, key: Seq<char>) -> bool {
    forall|j: int| 0 <= j < q.len() ==> (#[trigger] q[j]).0 != key
}

/// The last pair named `key` has a non-empty value.
pub open spec fn has_value(q: Seq<(Seq<char>, Seq<char>)>, key: Seq<char>) -> bool {
    exists|k: int| last_pair_at(q, key, k) && q[k].1.len() > 0
}

proof fn lemma_query_value_at_last(q: Seq<(Seq<char>, Seq<char>)>, key: Seq<char>, k: int)
    requires
        last_pair_at(q, key, k),
    ensures
        query_value(q, key) == Some(q[k].1),
    decreases q.len(),
{
    if k < q.len() - 1 {
        let init = q.drop_last();
        assert(q[q.len() - 1].0 != key);
        assert(init[k] == q[k]);
        assert forall|j: int| k < j < init.len() implies (#[trigger] init[j]).0 != key by {
            assert(init[j] == q[j]);
        }
        lemma_query_value_at_last(init, key, k);
    }
}

proof fn lemma_query_value_absent(q: Seq<(Seq<char>, Seq<char>)>, key: Seq<char>)
    requires
        no_pair(q, key),
    ensures
        query_value(q, key) is None,
    decreases q.len(),
{
    if q.len() > 0 {
        let init = q.drop_last();
        assert(q[q.len() - 1].0 != key);
        assert forall|j: int| 0 <= j < init.len() implies (#[trigger] init[j]).0 != key by {
            assert(init[j] == q[j]);
        }
        lemma_query_value_absent(init, key);
    }
}

proof fn lemma_query_value_found(q: Seq<(Seq<char>, Seq<char>)>, key: Seq<char>)
    ensures
        query_value(q, key) is Some ==> exists|k: int| last_pair_at(q, key, k) && q[k].1 == query_value(q, key)->Some_0,
        query_value(q, key) is None ==> no_pair(q, key),
    decreases q.len(),
{
    if q.len() > 0 {
        let init = q.drop_last();
        lemma_query_value_found(init, key);
        let last = q.len() - 1;
        if q[last].0 == key {
            assert(last_pair_at(q, key, last));
        } else if query_value(q, key) is Some {
            let k = choose|k: int| last_pair_at(init, key, k) && init[k].1 == query_value(init, key)->Some_0;
            assert(init[k] == q[k]);
            assert forall|j: int| k < j < q.len() implies (#[trigger] q[j]).0 != key by {
                if j < init.len() {
                    assert(init[j] == q[j]);
                }
            }
            assert(last_pair_at(q, key, k));
        } else {
            assert forall|j: int| 0 <= j < q.len() implies (#[trigger] q[j]).0 != key by {
                if j < init.len() {
                    assert(init[j] == q[j]);
                }
            }
        }
    }
}

/// A query has a non-empty last value for `key` exactly when the lookup
/// finds a non-empty one.
proof fn lemma_has_value(q: Seq<(Seq<char>, Seq<char>)>, key: Seq<char>)
    ensures
        has_value(q, key) <==> (query_value(q, key) is Some && query_value(q, key)->Some_0.len() > 0),
{
    lemma_query_value_found(q, key);
    if has_value(q, key) {
        let k = choose|k: int| last_pair_at(q, key, k) && q[k].1.len() > 0;
        lemma_query_value_at_last(q, key, k);
    }
}

/// When a URL yields a profile, each setting comes from the URL: the UUID
/// from the user name, server and port from the host and port, `sni`, `pbk`
/// and `sid` from the last query pair of that name; `fp` from its last pair
/// when that is non-empty and `chrome` otherwise; `flow` from its last pair
/// when that is non-empty and absent otherwise.
pub proof fn law_profile_reads_the_url(p: UrlPartsView)
    requires
        profile_from_parts(p) is Ok,
    ensures
        ({
            let pr = profile_from_parts(p)->Ok_0;
            let q = p.query;
            &&& pr.uuid == p.username
            &&& p.host == Some(pr.server)
            &&& p.port == Some(pr.port)
            &&& forall|k: int| last_pair_at(q, "sni"@, k) ==> pr.sni == q[k].1
            &&& forall|k: int| last_pair_at(q, "pbk"@, k) ==> pr.public_key == q[k].1
            &&& forall|k: int| last_pair_at(q, "sid"@, k) ==> pr.short_id == q[k].1
            &&& no_pair(q, "sid"@) ==> pr.short_id == Seq::<char>::empty()
            &&& forall|k: int| last_pair_at(q, "fp"@, k) ==> pr.fingerprint == (if q[k].1.len() > 0 { q[k].1 } else { "chrome"@ })
            &&& no_pair(q, "fp"@) ==> pr.fingerprint == "chrome"@
            &&& forall|k: int| last_pair_at(q, "flow"@, k) ==> pr.flow == (if q[k].1.len() > 0 { Some(q[k].1) } else { None })
            &&& no_pair(q, "flow"@) ==> pr.flow is None
        }),
{
    let q = p.query;
    assert forall|k: int| last_pair_at(q, "sni"@, k) implies profile_from_parts(p)->Ok_0.sni == q[k].1 by {
        lemma_query_value_at_last(q, "sni"@, k);
    }
    assert forall|k: int| last_pair_at(q, "pbk"@, k) implies profile_from_parts(p)->Ok_0.public_key == q[k].1 by {
        lemma_query_value_at_last(q, "pbk"@, k);
    }
    assert forall|k: int| last_pair_at(q, "sid"@, k) implies profile_from_parts(p)->Ok_0.short_id == q[k].1 by {
        lemma_query_value_at_last(q, "sid"@, k);
    }
    if no_pair(q, "sid"@) {
        lemma_query_value_absent(q, "sid"@);
    }
    assert forall|k: int| last_pair_at(q, "fp"@, k) implies profile_from_parts(p)->Ok_0.fingerprint == (if q[k].1.len() > 0 { q[k].1 } else { "chrome"@ }) by {
        lemma_query_value_at_last(q, "fp"@, k);
    }
    if no_pair(q, "fp"@) {
        lemma_query_value_absent(q, "fp"@);
    }
    assert forall|k: int| last_pair_at(q, "flow"@, k) implies profile_from_parts(p)->Ok_0.flow == (if q[k].1.len() > 0 { Some(q[k].1) } else { None }) by {
        lemma_query_value_at_last(q, "flow"@, k);
    }
    if no_pair(q, "flow"@) {
        lemma_query_value_absent(q, "flow"@);
    }
}

/// A URL yields a profile exactly when its scheme is `vless`, its user
/// name is a UUID in canonical form, it has a host and a port, and its last
/// `sni` and last `pbk` pairs have non-empty values.
pub proof fn law_profile_accepted_when(p: UrlPartsView)
    requires
        vstd::utf8::encode_utf8(p.username).len() <= usize::MAX,
    ensures
        profile_from_parts(p) is Ok <==> (
            p.scheme == "vless"@
            && canonical_uuid(p.username)
            && p.host is Some
            && p.port is Some
            && has_value(p.query, "sni"@)
            && has_value(p.query, "pbk"@)
        ),
{
    law_uuid_accepts_exactly_canonical_form(p.username);
    lemma_has_value(p.query, "sni"@);
    lemma_has_value(p.query, "pbk"@);
}


/// The VLESS outbound, first of the document's outbounds, carries the
/// profile: server, port, UUID, SNI, uTLS fingerprint, Reality key and
/// short id, and the flow exactly when the profile has one.
pub proof fn law_outbound_carries_profile(pr: ProfileView, rules: Option<RulesView>, packs: PacksView)
    ensures
        ({
            let doc = config_document(pr, rules, packs);
            let outs = items_of(field(doc, "outbounds"@)->Some_0);
            let o = outs[0];
            let tls = field(o, "tls"@)->Some_0;
            &&& field(doc, "outbounds"@) is Some
            &&& outs.len() == 3
            &&& field(o, "type"@) == Some(jstr("vless"@))
            &&& field(o, "server"@) == Some(jstr(pr.server))
            &&& field(o, "server_port"@) == Some(jnum(pr.port as nat))
            &&& field(o, "uuid"@) == Some(jstr(pr.uuid))
            &&& field(o, "tls"@) is Some
            &&& field(tls, "server_name"@) == Some(jstr(pr.sni))
            &&& field(field(tls, "utls"@)->Some_0, "fingerprint"@) == Some(jstr(pr.fingerprint))
            &&& field(field(tls, "reality"@)->Some_0, "public_key"@) == Some(jstr(pr.public_key))
            &&& field(field(tls, "reality"@)->Some_0, "short_id"@) == Some(jstr(pr.short_id))
            &&& field(o, "flow"@) == (match pr.flow {
                Some(f) => Some(jstr(f)),
                None => None,
            })
        }),
{
    reveal_strlit("log");
    reveal_strlit("outbounds");
    reveal_strlit("type");
    reveal_strlit("tag");
    reveal_strlit("server");
    reveal_strlit("server_port");
    reveal_strlit("uuid");
    reveal_strlit("tls");
    reveal_strlit("flow");
    reveal_strlit("enabled");
    reveal_strlit("server_name");
    reveal_strlit("utls");
    reveal_strlit("fingerprint");
    reveal_strlit("reality");
    reveal_strlit("public_key");
    reveal_strlit("short_id");
    let doc = config_document(pr, rules, packs);
    let dm = doc->Object_0;
    assert(dm[0].0 == "log"@);
    assert("log"@.len() != "outbounds"@.len());
    lemma_member_at(dm, "outbounds"@, 1);
    let outs = items_of(field(doc, "outbounds"@)->Some_0);
    assert(outs == seq![crate::config::vless_outbound(pr), crate::config::direct_outbound(), crate::config::block_outbound()]);
    let o = outs[0];
    let base = seq![
        ("type"@, jstr("vless"@)),
        ("tag"@, jstr("proxy"@)),
        ("server"@, jstr(pr.server)),
        ("server_port"@, jnum(pr.port as nat)),
        ("uuid"@, jstr(pr.uuid)),
        ("tls"@, crate::config::tls_block(pr)),
    ];
    let om = o->Object_0;
    assert(om.len() >= 6);
    assert forall|j: int| 0 <= j < 6 implies (#[trigger] om[j]) == base[j] by {
        match pr.flow {
            Some(f) => { assert(base.push(("flow"@, jstr(f)))[j] == base[j]); },
            None => {},
        }
    }
    assert(om[0].0 == "type"@ && om[1].0 == "tag"@ && om[2].0 == "server"@);
    assert(om[3].0 == "server_port"@ && om[4].0 == "uuid"@ && om[5].0 == "tls"@);
    assert("type"@.len() != "server"@.len() && "tag"@.len() != "server"@.len());
    assert("type"@.len() != "server_port"@.len() && "tag"@.len() != "server_port"@.len());
    assert("server"@.len() != "server_port"@.len());
    assert("type"@[0] != "uuid"@[0] && "tag"@[1] != "tls"@[1]);
    assert("type"@[0] != "flow"@[0] && "uuid"@[0] != "flow"@[0]);
    assert("type"@ != "uuid"@ && "tag"@ != "tls"@ && "type"@ != "flow"@ && "uuid"@ != "flow"@);
    lemma_member_at(om, "type"@, 0);
    lemma_member_at(om, "server"@, 2);
    lemma_member_at(om, "server_port"@, 3);
    lemma_member_at(om, "uuid"@, 4);
    lemma_member_at(om, "tls"@, 5);
    match pr.flow {
        Some(f) => { lemma_member_at(om, "flow"@, 6); },
        None => { lemma_member_absent(om, "flow"@); },
    }
    let tm = crate::config::tls_block(pr)->Object_0;
    assert(tm[0].0 == "enabled"@ && tm[1].0 == "server_name"@ && tm[2].0 == "utls"@ && tm[3].0 == "reality"@);
    assert("enabled"@.len() != "server_name"@.len() && "enabled"@.len() != "utls"@.len());
    assert("server_name"@.len() != "utls"@.len() && "server_name"@.len() != "reality"@.len());
    assert("utls"@.len() != "reality"@.len() && "enabled"@[0] != "reality"@[0]);
    assert("enabled"@.len() != "fingerprint"@.len() && "enabled"@.len() != "public_key"@.len());
    assert("enabled"@.len() != "short_id"@.len() && "public_key"@.len() != "short_id"@.len());
    lemma_member_at(tm, "server_name"@, 1);
    lemma_member_at(tm, "utls"@, 2);
    lemma_member_at(tm, "reality"@, 3);
    let um = field(crate::config::tls_block(pr), "utls"@)->Some_0->Object_0;
    lemma_member_at(um, "fingerprint"@, 1);
    let rm = field(crate::config::tls_block(pr), "reality"@)->Some_0->Object_0;
    lemma_member_at(rm, "public_key"@, 1);
    lemma_member_at(rm, "short_id"@, 2);
}


/// Every rule set and proxy tag that one geo rule contributes is among those
/// of a list holding it.
proof fn lemma_contribution_included(gs: Seq<Seq<char>>, inside: Option<Seq<char>>, i: int)
    requires
        0 <= i < gs.len(),
    ensures
        forall|v: JsonView| crate::config::geo_rule_contribution(gs[i], inside).0.contains(v)
            ==> #[trigger] geo_rules_contribution(gs, inside).0.contains(v),
        forall|t: Seq<char>| crate::config::geo_rule_contribution(gs[i], inside).1.contains(t)
            ==> #[trigger] geo_rules_contribution(gs, inside).1.contains(t),
    decreases gs.len(),
{
    let init = gs.drop_last();
    let prev = geo_rules_contribution(init, inside);
    let step = crate::config::geo_rule_contribution(gs.last(), inside);
    if i < gs.len() - 1 {
        assert(init[i] == gs[i]);
        lemma_contribution_included(init, inside, i);
        assert forall|v: JsonView| crate::config::geo_rule_contribution(gs[i], inside).0.contains(v)
            implies #[trigger] geo_rules_contribution(gs, inside).0.contains(v) by {
            assert(prev.0.contains(v));
            let k = choose|k: int| 0 <= k < prev.0.len() && prev.0[k] == v;
            assert((prev.0 + step.0)[k] == v);
        }
        assert forall|t: Seq<char>| crate::config::geo_rule_contribution(gs[i], inside).1.contains(t)
            implies #[trigger] geo_rules_contribution(gs, inside).1.contains(t) by {
            assert(prev.1.contains(t));
            let k = choose|k: int| 0 <= k < prev.1.len() && prev.1[k] == t;
            assert((prev.1 + step.1)[k] == t);
        }
    } else {
        assert forall|v: JsonView| crate::config::geo_rule_contribution(gs[i], inside).0.contains(v)
            implies #[trigger] geo_rules_contribution(gs, inside).0.contains(v) by {
            let k = choose|k: int| 0 <= k < step.0.len() && step.0[k] == v;
            assert((prev.0 + step.0)[prev.0.len() + k] == v);
        }
        assert forall|t: Seq<char>| crate::config::geo_rule_contribution(gs[i], inside).1.contains(t)
            implies #[trigger] geo_rules_contribution(gs, inside).1.contains(t) by {
            let k = choose|k: int| 0 <= k < step.1.len() && step.1[k] == t;
            assert((prev.1 + step.1)[prev.1.len() + k] == t);
        }
    }
}

/// In rule mode the user's lists take effect: every listed process is sent
/// through the proxy; the listed domains, when there are any, get a rule
/// sending them and their subdomains through the proxy; and each
/// `geosite:NAME` rule brings the remote rule set
/// `.../sing-geosite/rule-set/geosite-NAME.srs`, tagged `geosite-NAME`,
/// whose tag is sent through the proxy.
pub proof fn law_rule_mode_uses_the_lists(server: Seq<char>, r: RulesView, packs: PacksView)
    requires
        r.mode == crate::routing::RoutingMode::Rule,
    ensures
        forall|p: Seq<char>| #[trigger] r.processes.contains(p) ==> proxy_processes(Some(r)).contains(p),
        r.domains.len() > 0 ==> route_rules(server, Some(r), packs).contains(JsonView::Object(seq![
            ("domain_suffix"@, JsonView::Array(r.domains.map_values(|d: Seq<char>| JsonView::Str(d)))),
            ("outbound"@, JsonView::Str("proxy"@)),
        ])),
        forall|i: int| 0 <= i < r.geo_rules.len() && crate::text::starts_with(#[trigger] r.geo_rules[i], "geosite:"@) ==> {
            let g = r.geo_rules[i];
            let tag = "geosite-"@ + g.skip(8).map_values(|c: char| if c == ':' { '-' } else { c });
            &&& route_rule_sets(Some(r), packs).contains(JsonView::Object(seq![
                ("tag"@, JsonView::Str(tag)),
                ("type"@, JsonView::Str("remote"@)),
                ("format"@, JsonView::Str("binary"@)),
                ("url"@, JsonView::Str("https://raw.githubusercontent.com/SagerNet/sing-geosite/rule-set/geosite-"@ + g.skip(8) + ".srs"@)),
                ("download_detour"@, JsonView::Str("direct"@)),
            ]))
            &&& geo_rules_contribution(r.geo_rules, packs.inside).1.contains(tag)
        },
{
    let rv = Some(r);
    let procs = proxy_processes(rv);
    assert forall|p: Seq<char>| #[trigger] r.processes.contains(p) implies procs.contains(p) by {
        let k = choose|k: int| 0 <= k < r.processes.len() && r.processes[k] == p;
        let with_tg = if r.geo_rules.contains("telegram_combo"@) { r.processes.push("telegram.exe"@) } else { r.processes };
        assert(with_tg[k] == p);
        assert(procs[k] == p);
    }
    if r.domains.len() > 0 {
        let base = seq![sniff_rule(), hijack_dns_rule(), server_bypass_rule(server), private_rule()];
        let a = if procs.len() > 0 {
            base.push(crate::config::outbound_rule("process_name"@, crate::json::str_items(procs), "proxy"@))
        } else {
            base
        };
        let b = if packs.outside is Some {
            a.push(crate::config::outbound_rule("rule_set"@, seq![jstr("outside-pack"@)], "direct"@))
        } else {
            a
        };
        let rule = crate::config::outbound_rule("domain_suffix"@, crate::json::str_items(r.domains), "proxy"@);
        let c = b.push(rule);
        assert(crate::json::str_items(r.domains) =~= r.domains.map_values(|d: Seq<char>| JsonView::Str(d)));
        let rr = route_rules(server, rv, packs);
        assert(rr[b.len() as int] == c[b.len() as int]);
        assert(rr.contains(rule));
    }
    reveal_strlit("geosite:");
    reveal_strlit("russia_pack");
    reveal_strlit("telegram_combo");
    reveal_strlit("discord_combo");
    assert forall|i: int| 0 <= i < r.geo_rules.len() && crate::text::starts_with(#[trigger] r.geo_rules[i], "geosite:"@) implies {
            let g = r.geo_rules[i];
            let tag = "geosite-"@ + g.skip(8).map_values(|c: char| if c == ':' { '-' } else { c });
            &&& route_rule_sets(Some(r), packs).contains(JsonView::Object(seq![
                ("tag"@, JsonView::Str(tag)),
                ("type"@, JsonView::Str("remote"@)),
                ("format"@, JsonView::Str("binary"@)),
                ("url"@, JsonView::Str("https://raw.githubusercontent.com/SagerNet/sing-geosite/rule-set/geosite-"@ + g.skip(8) + ".srs"@)),
                ("download_detour"@, JsonView::Str("direct"@)),
            ]))
            &&& geo_rules_contribution(r.geo_rules, packs.inside).1.contains(tag)
        } by {
        let g = r.geo_rules[i];
        let tag = "geosite-"@ + g.skip(8).map_values(|c: char| if c == ':' { '-' } else { c });
        assert(g.subrange(0, 8) == "geosite:"@);
        assert(g.subrange(0, 8)[0] == g[0] && g.subrange(0, 8)[7] == g[7]);
        assert(g[0] == 'g' && g[7] == ':');
        reveal_strlit("geosite-");
        assert(g != "russia_pack"@ && g != "telegram_combo"@ && g != "discord_combo"@) by {
            assert("russia_pack"@[0] != 'g' && "telegram_combo"@[0] != 'g' && "discord_combo"@[0] != 'g');
        }
        let rep = crate::text::replace_char_spec(g, ':', '-');
        assert(rep =~= tag) by {
            assert forall|k: int| 0 <= k < rep.len() implies rep[k] == tag[k] by {
                if k < 8 {
                    assert(g.subrange(0, 8)[k] == g[k]);
                } else {
                    assert(g.skip(8)[k - 8] == g[k]);
                }
            }
        }
        lemma_contribution_included(r.geo_rules, packs.inside, i);
        let set = crate::config::remote_rule_set(tag, "https://raw.githubusercontent.com/SagerNet/sing-geosite/rule-set/geosite-"@ + g.skip(8) + ".srs"@);
        let step = crate::config::geo_rule_contribution(g, packs.inside);
        assert(step.0 == seq![set]);
        assert(step.0[0] == set);
        assert(step.0.contains(set));
        assert(step.1[0] == tag);
        assert(step.1.contains(tag));
        let outside = match packs.outside {
            Some(p) => seq![crate::config::local_rule_set("outside-pack"@, p)],
            None => Seq::<JsonView>::empty(),
        };
        let all = geo_rules_contribution(r.geo_rules, packs.inside).0;
        assert(all.contains(set));
        let k = choose|k: int| 0 <= k < all.len() && all[k] == set;
        assert(route_rule_sets(Some(r), packs) == outside + all);
        assert((outside + all)[outside.len() + k] == set);
        assert(route_rule_sets(Some(r), packs).contains(set));
    }
}


/// Traffic to the VLESS server itself never enters the tunnel: a server
/// given as an IP address (it holds a `:`, or starts with a digit) gets a
/// direct `ip_cidr` rule for it and is excluded from the TUN routes (as
/// `/128` when it holds a `:`, `/32` otherwise); a server given by name
/// gets a direct `domain` rule and no route exclusion.
pub proof fn law_server_is_bypassed(server: Seq<char>)
    ensures
        ({
            let is_ip = server.contains(':') || (server.len() > 0 && '0' <= server[0] && server[0] <= '9');
            let direct = ("outbound"@, JsonView::Str("direct"@));
            &&& is_ip ==> server_bypass_rule(server) == JsonView::Object(seq![
                ("ip_cidr"@, JsonView::Array(seq![JsonView::Str(server + "/32"@)])),
                direct,
            ])
            &&& is_ip ==> field(crate::config::tun_inbound(server), "route_exclude_address"@) == Some(JsonView::Array(seq![
                JsonView::Str(server + (if server.contains(':') { "/128"@ } else { "/32"@ })),
            ]))
            &&& !is_ip ==> server_bypass_rule(server) == JsonView::Object(seq![
                ("domain"@, JsonView::Array(seq![JsonView::Str(server)])),
                direct,
            ])
            &&& !is_ip ==> field(crate::config::tun_inbound(server), "route_exclude_address"@) is None
        }),
{
    reveal_strlit("type");
    reveal_strlit("tag");
    reveal_strlit("interface_name");
    reveal_strlit("address");
    reveal_strlit("auto_route");
    reveal_strlit("strict_route");
    reveal_strlit("stack");
    reveal_strlit("endpoint_independent_nat");
    reveal_strlit("mtu");
    reveal_strlit("route_exclude_address");
    let m = crate::config::tun_inbound(server)->Object_0;
    assert(m[0].0 == "type"@ && m[1].0 == "tag"@ && m[2].0 == "interface_name"@ && m[3].0 == "address"@);
    assert(m[4].0 == "auto_route"@ && m[5].0 == "strict_route"@ && m[6].0 == "stack"@);
    assert(m[7].0 == "endpoint_independent_nat"@ && m[8].0 == "mtu"@);
    let key = "route_exclude_address"@;
    assert(key.len() == 21);
    assert(m[0].0.len() != 21 && m[1].0.len() != 21 && m[2].0.len() != 21 && m[3].0.len() != 21);
    assert(m[4].0.len() != 21 && m[5].0.len() != 21 && m[6].0.len() != 21 && m[7].0.len() != 21 && m[8].0.len() != 21);
    if crate::config::server_is_ip(server) {
        assert(m[9].0 == key);
        lemma_member_at(m, key, 9);
    } else {
        assert(m.len() == 9);
        lemma_member_absent(m, key);
    }
}

} // verus!
