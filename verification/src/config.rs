use vstd::prelude::*;
use crate::json::{
    JsonValue, JsonView, items_view, jarr, jbool, jnum, jobj, jstr, jv_array, jv_bool, jv_num,
    jv_object, jv_str, jv_str_array, jv_str_array1, jv_string, members_view, new_items,
    new_members, push_item, put, str_items,
};
use crate::routing::{RoutingMode, RoutingRules, RulesView};
use crate::vless_url::{
    UrlParts, UrlPartsView, lookup_non_empty, lookup_query, non_empty_value, opt_text, parse_url,
    query_value, url_parse_outcome,
};
use crate::text::{
    concat2, concat3, push_text, same_text, string_of,
    replace_char_spec, starts_with, trimmed, trim_str, replace_char, has_prefix, contains_char,
    chars_of, decimal, first_index, is_ascii_digit, is_ascii_hex, is_digit, is_hex_digit,
    lemma_first_index, push_char, push_decimal,
};

verus! {

broadcast use vstd::string::group_string_axioms;

// ------------------------------------------------------------------
// UUID validation
// ------------------------------------------------------------------

/// Dashes stand exactly at positions 8, 13, 18 and 23 (counted in
/// characters), as in `xxxxxxxx-xxxx-xxxx-xxxx-xxxxxxxxxxxx`.
pub open spec fn dashes_in_place(s: Seq<char>) -> bool {
    &&& s.len() > 23
    &&& forall|i: int| 0 <= i < s.len() ==> ((#[trigger] s[i] == '-') <==> (i == 8 || i == 13 || i == 18 || i == 23))
}

pub open spec fn bad_uuid_char() -> spec_fn(char) -> bool {
    |c: char| c != '-' && !is_ascii_hex(c)
}

pub open spec fn msg_uuid_length(n: nat) -> Seq<char> {
    "Неверная длина UUID: "@ + decimal(n) + " символов (ожидается 36)"@
}

pub open spec fn msg_uuid_format() -> Seq<char> {
    "Неверный формат UUID. Ожидается: xxxxxxxx-xxxx-xxxx-xxxx-xxxxxxxxxxxx"@
}

pub open spec fn msg_uuid_char(c: char, pos: nat) -> Seq<char> {
    "Неверный символ '"@ + seq![c] + "' в UUID на позиции "@ + decimal(pos)
        + " (допустимы только 0-9, a-f, A-F)"@
}

/// Whether a text is a UUID `8-4-4-4-12` of hex digits, and if not, why:
/// the length in UTF-8 bytes is checked first, then the dash positions, then
/// the first character that is neither a dash nor a hex digit.
pub open spec fn validate_uuid_spec(s: Seq<char>) -> Result<(), Seq<char>> {
    let n = utf8_len(s);
    if n != 36 {
        Err(msg_uuid_length(n))
    } else if !dashes_in_place(s) {
        Err(msg_uuid_format())
    } else if first_index(s, bad_uuid_char()) < s.len() {
        let k = first_index(s, bad_uuid_char());
        Err(msg_uuid_char(s[k as int], k))
    } else {
        Ok(())
    }
}

/// The length of a text in UTF-8 bytes, as `str::len` reports it.
pub open spec fn utf8_len(s: Seq<char>) -> nat {
    (vstd::utf8::encode_utf8(s).len() as usize) as nat
}

pub open spec fn unit_result(r: Result<(), String>) -> Result<(), Seq<char>> {
    match r {
        Ok(()) => Ok(()),
        Err(e) => Err(e@),
    }
}

fn is_uuid_dash_position(i: usize) -> (b: bool)
    ensures
        b == (i == 8 || i == 13 || i == 18 || i == 23),
{
    i == 8 || i == 13 || i == 18 || i == 23
}

/// Checks that `uuid` has the form `xxxxxxxx-xxxx-xxxx-xxxx-xxxxxxxxxxxx`
/// with hex digits `x`.
pub fn validate_uuid(uuid: &str) -> (r: Result<(), String>)
    ensures
        unit_result(r) == validate_uuid_spec(uuid@),
{
    let n = uuid.len();
    if n != 36 {
        let mut m = String::from_str("Неверная длина UUID: ");
        push_decimal(&mut m, n);
        m.append(" символов (ожидается 36)");
        return Err(m);
    }
    let v = chars_of(uuid);
    if v.len() <= 23 {
        return Err(String::from_str("Неверный формат UUID. Ожидается: xxxxxxxx-xxxx-xxxx-xxxx-xxxxxxxxxxxx"));
    }
    let mut i: usize = 0;
    while i < v.len()
        invariant
            v@ == uuid@,
            utf8_len(uuid@) == 36,
            v.len() > 23,
            i <= v.len(),
            forall|j: int| 0 <= j < i ==> ((#[trigger] v@[j] == '-') <==> (j == 8 || j == 13 || j == 18 || j == 23)),
        decreases v.len() - i,
    {
        if (v[i] == '-') != is_uuid_dash_position(i) {
            assert(!((uuid@[i as int] == '-') <==> (i == 8 || i == 13 || i == 18 || i == 23)));
            return Err(String::from_str("Неверный формат UUID. Ожидается: xxxxxxxx-xxxx-xxxx-xxxx-xxxxxxxxxxxx"));
        }
        i = i + 1;
    }
    let mut k: usize = 0;
    while k < v.len() && (v[k] == '-' || is_hex_digit(v[k]))
        invariant
            k <= v.len(),
            v@ == uuid@,
            forall|j: int| 0 <= j < k ==> !bad_uuid_char()(#[trigger] v@[j]),
        decreases v.len() - k,
    {
        k = k + 1;
    }
    proof {
        lemma_first_index(v@, bad_uuid_char(), k as int);
    }
    if k < v.len() {
        let mut m = String::from_str("Неверный символ '");
        push_char(&mut m, v[k]);
        m.append("' в UUID на позиции ");
        push_decimal(&mut m, k);
        m.append(" (допустимы только 0-9, a-f, A-F)");
        assert(m@ =~= msg_uuid_char(v@[k as int], k as nat));
        return Err(m);
    }
    Ok(())
}

// ------------------------------------------------------------------
// The sing-box document: specification
// ------------------------------------------------------------------

/// The settings of a VLESS + Reality profile, read from its URL.
pub struct ProfileView {
    pub uuid: Seq<char>,
    pub server: Seq<char>,
    pub port: u16,
    pub sni: Seq<char>,
    pub public_key: Seq<char>,
    pub short_id: Seq<char>,
    pub fingerprint: Seq<char>,
    pub flow: Option<Seq<char>>,
}

/// Paths of the local rule-pack files that exist (`None` for a missing one).
pub struct PacksView {
    pub inside: Option<Seq<char>>,
    pub outside: Option<Seq<char>>,
}

pub open spec fn msg_url_unparsable(e: Seq<char>) -> Seq<char> {
    "Не удалось разобрать URL: "@ + e
}

pub open spec fn msg_wrong_scheme(scheme: Seq<char>) -> Seq<char> {
    "Неверная схема URL: '"@ + scheme + "'. Ожидается 'vless://'"@
}

pub open spec fn msg_no_uuid() -> Seq<char> {
    "UUID не найден в URL (ожидается vless://UUID@host:port)"@
}

pub open spec fn msg_no_host() -> Seq<char> {
    "Адрес сервера не найден в URL"@
}

pub open spec fn msg_no_port() -> Seq<char> {
    "Порт не найден в URL (ожидается vless://UUID@host:PORT)"@
}

pub open spec fn msg_no_sni() -> Seq<char> {
    "Параметр 'sni' не найден или пустой. Reality требует SNI (например, sni=www.google.com)"@
}

pub open spec fn msg_no_public_key() -> Seq<char> {
    "Параметр 'pbk' (public key) не найден в URL"@
}

/// The profile a parsed URL describes, or the first thing wrong with it:
/// scheme, user name (the UUID), host, port, then the `sni` and `pbk`
/// parameters. `sid` defaults to empty, `fp` to `chrome`; `flow` is kept
/// when given and non-empty.
pub open spec fn profile_from_parts(p: UrlPartsView) -> Result<ProfileView, Seq<char>> {
    if p.scheme != "vless"@ {
        Err(msg_wrong_scheme(p.scheme))
    } else if p.username.len() == 0 {
        Err(msg_no_uuid())
    } else if validate_uuid_spec(p.username) is Err {
        Err(validate_uuid_spec(p.username)->Err_0)
    } else if p.host is None {
        Err(msg_no_host())
    } else if p.port is None {
        Err(msg_no_port())
    } else if non_empty_value(p.query, "sni"@) is None {
        Err(msg_no_sni())
    } else if non_empty_value(p.query, "pbk"@) is None {
        Err(msg_no_public_key())
    } else {
        Ok(ProfileView {
            uuid: p.username,
            server: p.host->Some_0,
            port: p.port->Some_0,
            sni: non_empty_value(p.query, "sni"@)->Some_0,
            public_key: non_empty_value(p.query, "pbk"@)->Some_0,
            short_id: match query_value(p.query, "sid"@) {
                Some(v) => v,
                None => Seq::empty(),
            },
            fingerprint: match non_empty_value(p.query, "fp"@) {
                Some(v) => v,
                None => "chrome"@,
            },
            flow: non_empty_value(p.query, "flow"@),
        })
    }
}

/// The server is given as an IP address: it holds a `:` (IPv6) or begins
/// with a digit (IPv4).
pub open spec fn server_is_ip(server: Seq<char>) -> bool {
    server.contains(':') || (server.len() > 0 && is_ascii_digit(server[0]))
}

/// The server's own address block: `/128` for IPv6, `/32` for IPv4.
pub open spec fn server_cidr(server: Seq<char>) -> Seq<char> {
    if server.contains(':') {
        server + "/128"@
    } else {
        server + "/32"@
    }
}

/// Rule mode is on (rules are given and select rule mode).
pub open spec fn rule_mode(rules: Option<RulesView>) -> bool {
    rules is Some && rules->Some_0.mode == RoutingMode::Rule
}

pub open spec fn tls_block(pr: ProfileView) -> JsonView {
    jobj(seq![
        ("enabled"@, jbool(true)),
        ("server_name"@, jstr(pr.sni)),
        ("utls"@, jobj(seq![("enabled"@, jbool(true)), ("fingerprint"@, jstr(pr.fingerprint))])),
        ("reality"@, jobj(seq![
            ("enabled"@, jbool(true)),
            ("public_key"@, jstr(pr.public_key)),
            ("short_id"@, jstr(pr.short_id)),
        ])),
    ])
}

pub open spec fn vless_outbound(pr: ProfileView) -> JsonView {
    let base = seq![
        ("type"@, jstr("vless"@)),
        ("tag"@, jstr("proxy"@)),
        ("server"@, jstr(pr.server)),
        ("server_port"@, jnum(pr.port as nat)),
        ("uuid"@, jstr(pr.uuid)),
        ("tls"@, tls_block(pr)),
    ];
    match pr.flow {
        Some(f) => jobj(base.push(("flow"@, jstr(f)))),
        None => jobj(base),
    }
}

pub open spec fn direct_outbound() -> JsonView {
    jobj(seq![("type"@, jstr("direct"@)), ("tag"@, jstr("direct"@)), ("domain_resolver"@, jstr("local-dns"@))])
}

pub open spec fn block_outbound() -> JsonView {
    jobj(seq![("type"@, jstr("block"@)), ("tag"@, jstr("block"@))])
}

pub open spec fn log_block() -> JsonView {
    jobj(seq![("level"@, jstr("debug"@)), ("timestamp"@, jbool(true))])
}

/// The TUN inbound; an IP server's address block is kept out of the tunnel.
pub open spec fn tun_inbound(server: Seq<char>) -> JsonView {
    let base = seq![
        ("type"@, jstr("tun"@)),
        ("tag"@, jstr("tun-in"@)),
        ("interface_name"@, jstr("vlessok-tun"@)),
        ("address"@, jarr(seq![jstr("172.19.0.1/30"@)])),
        ("auto_route"@, jbool(true)),
        ("strict_route"@, jbool(true)),
        ("stack"@, jstr("system"@)),
        ("endpoint_independent_nat"@, jbool(false)),
        ("mtu"@, jnum(1500)),
    ];
    if server_is_ip(server) {
        jobj(base.push(("route_exclude_address"@, jarr(seq![jstr(server_cidr(server))]))))
    } else {
        jobj(base)
    }
}

/// DNS: remote DoH through the proxy, local UDP direct; `.local` names,
/// and a server given by name, resolve locally.
pub open spec fn dns_block(server: Seq<char>) -> JsonView {
    let local_suffix = jobj(seq![("domain_suffix"@, jarr(seq![jstr(".local"@)])), ("server"@, jstr("local-dns"@))]);
    let rules = if server_is_ip(server) {
        seq![local_suffix]
    } else {
        seq![jobj(seq![("domain"@, jarr(seq![jstr(server)])), ("server"@, jstr("local-dns"@))]), local_suffix]
    };
    jobj(seq![
        ("servers"@, jarr(seq![
            jobj(seq![
                ("type"@, jstr("https"@)),
                ("tag"@, jstr("remote-dns"@)),
                ("server"@, jstr("1.1.1.1"@)),
                ("domain_resolver"@, jstr("local-dns"@)),
                ("detour"@, jstr("proxy"@)),
            ]),
            jobj(seq![
                ("type"@, jstr("udp"@)),
                ("tag"@, jstr("local-dns"@)),
                ("server"@, jstr("1.1.1.1"@)),
                ("detour"@, jstr("direct"@)),
            ]),
        ])),
        ("rules"@, jarr(rules)),
        ("final"@, jstr("remote-dns"@)),
        ("strategy"@, jstr("ipv4_only"@)),
    ])
}

pub open spec fn local_rule_set(tag: Seq<char>, path: Seq<char>) -> JsonView {
    jobj(seq![
        ("tag"@, jstr(tag)),
        ("type"@, jstr("local"@)),
        ("format"@, jstr("source"@)),
        ("path"@, jstr(replace_char_spec(path, '\\', '/'))),
    ])
}

pub open spec fn remote_rule_set(tag: Seq<char>, url: Seq<char>) -> JsonView {
    jobj(seq![
        ("tag"@, jstr(tag)),
        ("type"@, jstr("remote"@)),
        ("format"@, jstr("binary"@)),
        ("url"@, jstr(url)),
        ("download_detour"@, jstr("direct"@)),
    ])
}

/// The rule sets and the proxy tags that one geo rule contributes: the
/// local inside pack for `russia_pack` (when its file exists), the site and
/// IP lists of a preset, or the remote list that a `geosite:`/`geoip:`
/// entry names (any other entry still contributes its tag).
pub open spec fn geo_rule_contribution(g: Seq<char>, inside: Option<Seq<char>>) -> (Seq<JsonView>, Seq<Seq<char>>) {
    if g == "russia_pack"@ {
        match inside {
            Some(p) => (seq![local_rule_set("inside-pack"@, p)], seq!["inside-pack"@]),
            None => (Seq::empty(), Seq::empty()),
        }
    } else if g == "telegram_combo"@ {
        (
            seq![
                remote_rule_set("geosite-telegram"@, "https://raw.githubusercontent.com/SagerNet/sing-geosite/rule-set/geosite-telegram.srs"@),
                remote_rule_set("geoip-telegram"@, "https://raw.githubusercontent.com/SagerNet/sing-geoip/rule-set/geoip-telegram.srs"@),
            ],
            seq!["geosite-telegram"@, "geoip-telegram"@],
        )
    } else if g == "discord_combo"@ {
        (
            seq![
                remote_rule_set("geosite-discord"@, "https://raw.githubusercontent.com/SagerNet/sing-geosite/rule-set/geosite-discord.srs"@),
                remote_rule_set("geoip-discord"@, "https://raw.githubusercontent.com/SagerNet/sing-geoip/rule-set/geoip-discord.srs"@),
            ],
            seq!["geosite-discord"@, "geoip-discord"@],
        )
    } else {
        let tag = replace_char_spec(g, ':', '-');
        if starts_with(g, "geosite:"@) {
            (
                seq![remote_rule_set(tag, "https://raw.githubusercontent.com/SagerNet/sing-geosite/rule-set/geosite-"@ + g.skip("geosite:"@.len() as int) + ".srs"@)],
                seq![tag],
            )
        } else if starts_with(g, "geoip:"@) {
            (
                seq![remote_rule_set(tag, "https://raw.githubusercontent.com/SagerNet/sing-geoip/rule-set/geoip-"@ + g.skip("geoip:"@.len() as int) + ".srs"@)],
                seq![tag],
            )
        } else {
            (Seq::empty(), seq![tag])
        }
    }
}

/// The rule sets and proxy tags of a list of geo rules, in order.
pub open spec fn geo_rules_contribution(gs: Seq<Seq<char>>, inside: Option<Seq<char>>) -> (Seq<JsonView>, Seq<Seq<char>>)
    decreases gs.len(),
{
    if gs.len() == 0 {
        (Seq::empty(), Seq::empty())
    } else {
        let prev = geo_rules_contribution(gs.drop_last(), inside);
        let step = geo_rule_contribution(gs.last(), inside);
        (prev.0 + step.0, prev.1 + step.1)
    }
}

/// Processes sent through the proxy in rule mode: the listed ones, then
/// Telegram's and Discord's executables when their presets are on.
pub open spec fn proxy_processes(rules: Option<RulesView>) -> Seq<Seq<char>> {
    if rule_mode(rules) {
        let r = rules->Some_0;
        let with_tg = if r.geo_rules.contains("telegram_combo"@) {
            r.processes.push("telegram.exe"@)
        } else {
            r.processes
        };
        if r.geo_rules.contains("discord_combo"@) {
            with_tg.push("discord.exe"@)
        } else {
            with_tg
        }
    } else {
        Seq::empty()
    }
}

pub open spec fn sniff_rule() -> JsonView {
    jobj(seq![
        ("action"@, jstr("sniff"@)),
        ("sniffer"@, jarr(seq![jstr("http"@), jstr("tls"@), jstr("quic"@)])),
        ("timeout"@, jstr("100ms"@)),
    ])
}

pub open spec fn hijack_dns_rule() -> JsonView {
    jobj(seq![("port"@, jarr(seq![jnum(53)])), ("action"@, jstr("hijack-dns"@))])
}

/// Traffic to the VLESS server itself goes direct.
pub open spec fn server_bypass_rule(server: Seq<char>) -> JsonView {
    if server_is_ip(server) {
        jobj(seq![("ip_cidr"@, jarr(seq![jstr(server + "/32"@)])), ("outbound"@, jstr("direct"@))])
    } else {
        jobj(seq![("domain"@, jarr(seq![jstr(server)])), ("outbound"@, jstr("direct"@))])
    }
}

pub open spec fn private_rule() -> JsonView {
    jobj(seq![("ip_is_private"@, jbool(true)), ("outbound"@, jstr("direct"@))])
}

pub open spec fn outbound_rule(key: Seq<char>, values: Seq<JsonView>, outbound: Seq<char>) -> JsonView {
    jobj(seq![(key, jarr(values)), ("outbound"@, jstr(outbound))])
}

/// The route rules, in order of precedence.
pub open spec fn route_rules(server: Seq<char>, rules: Option<RulesView>, packs: PacksView) -> Seq<JsonView> {
    let base = seq![sniff_rule(), hijack_dns_rule(), server_bypass_rule(server), private_rule()];
    let procs = proxy_processes(rules);
    let a = if procs.len() > 0 {
        base.push(outbound_rule("process_name"@, str_items(procs), "proxy"@))
    } else {
        base
    };
    let b = if packs.outside is Some {
        a.push(outbound_rule("rule_set"@, seq![jstr("outside-pack"@)], "direct"@))
    } else {
        a
    };
    if rule_mode(rules) {
        let r = rules->Some_0;
        let c = if r.domains.len() > 0 {
            b.push(outbound_rule("domain_suffix"@, str_items(r.domains), "proxy"@))
        } else {
            b
        };
        let tags = geo_rules_contribution(r.geo_rules, packs.inside).1;
        if r.geo_rules.len() > 0 && tags.len() > 0 {
            c.push(outbound_rule("rule_set"@, str_items(tags), "proxy"@))
        } else {
            c
        }
    } else {
        b
    }
}

/// The rule sets the route refers to: the outside pack, then those of the
/// geo rules in rule mode.
pub open spec fn route_rule_sets(rules: Option<RulesView>, packs: PacksView) -> Seq<JsonView> {
    let outside = match packs.outside {
        Some(p) => seq![local_rule_set("outside-pack"@, p)],
        None => Seq::empty(),
    };
    if rule_mode(rules) && rules->Some_0.geo_rules.len() > 0 {
        outside + geo_rules_contribution(rules->Some_0.geo_rules, packs.inside).0
    } else {
        outside
    }
}

/// The route: rules, and the default outbound (`direct` in rule mode,
/// `proxy` otherwise).
pub open spec fn route_block(server: Seq<char>, rules: Option<RulesView>, packs: PacksView) -> JsonView {
    let base = seq![
        ("auto_detect_interface"@, jbool(true)),
        ("find_process"@, jbool(true)),
        ("rules"@, jarr(route_rules(server, rules, packs))),
        ("final"@, jstr(if rule_mode(rules) { "direct"@ } else { "proxy"@ })),
    ];
    let sets = route_rule_sets(rules, packs);
    if sets.len() > 0 {
        jobj(base.push(("rule_set"@, jarr(sets))))
    } else {
        jobj(base)
    }
}

/// The whole sing-box document for a profile.
pub open spec fn config_document(pr: ProfileView, rules: Option<RulesView>, packs: PacksView) -> JsonView {
    jobj(seq![
        ("log"@, log_block()),
        ("outbounds"@, jarr(seq![vless_outbound(pr), direct_outbound(), block_outbound()])),
        ("inbounds"@, jarr(seq![tun_inbound(pr.server)])),
        ("dns"@, dns_block(pr.server)),
        ("route"@, route_block(pr.server, rules, packs)),
    ])
}

/// The document for a parsed URL, or why there is none.
pub open spec fn singbox_config_spec(p: UrlPartsView, rules: Option<RulesView>, packs: PacksView) -> Result<JsonView, Seq<char>> {
    match profile_from_parts(p) {
        Ok(pr) => Ok(config_document(pr, rules, packs)),
        Err(e) => Err(e),
    }
}

/// The document for a VLESS URL text, or why there is none.
pub open spec fn vless_config_spec(url: Seq<char>, rules: Option<RulesView>, packs: PacksView) -> Result<JsonView, Seq<char>> {
    match url_parse_outcome(trimmed(url)) {
        Err(e) => Err(msg_url_unparsable(e)),
        Ok(p) => singbox_config_spec(p, rules, packs),
    }
}

// ------------------------------------------------------------------
// The sing-box document: construction
// ------------------------------------------------------------------

/// Paths (as text) of the local rule-pack files that exist: `inside` is the
/// pack of sites to proxy, `outside` the pack of sites that always go direct.
pub struct RulePackFiles {
    pub inside: Option<String>,
    pub outside: Option<String>,
}

impl View for RulePackFiles {
    type V = PacksView;

    open spec fn view(&self) -> PacksView {
        PacksView { inside: opt_text(self.inside), outside: opt_text(self.outside) }
    }
}

/// The settings of a VLESS + Reality profile.
pub struct Profile {
    pub uuid: String,
    pub server: String,
    pub port: u16,
    pub sni: String,
    pub public_key: String,
    pub short_id: String,
    pub fingerprint: String,
    pub flow: Option<String>,
}

impl View for Profile {
    type V = ProfileView;

    open spec fn view(&self) -> ProfileView {
        ProfileView {
            uuid: self.uuid@,
            server: self.server@,
            port: self.port,
            sni: self.sni@,
            public_key: self.public_key@,
            short_id: self.short_id@,
            fingerprint: self.fingerprint@,
            flow: opt_text(self.flow),
        }
    }
}

pub open spec fn rules_view(rules: Option<&RoutingRules>) -> Option<RulesView> {
    match rules {
        Some(r) => Some(r@),
        None => None,
    }
}

pub open spec fn json_result(r: Result<JsonValue, String>) -> Result<JsonView, Seq<char>> {
    match r {
        Ok(v) => Ok(v@),
        Err(e) => Err(e@),
    }
}

pub open spec fn profile_result(r: Result<Profile, String>) -> Result<ProfileView, Seq<char>> {
    match r {
        Ok(p) => Ok(p@),
        Err(e) => Err(e@),
    }
}

/// Reads the profile out of a parsed URL, checking it as
/// [`profile_from_parts`] describes.
pub fn profile_of(parts: &UrlParts) -> (r: Result<Profile, String>)
    ensures
        profile_result(r) == profile_from_parts(parts@),
{
    let vless = String::from_str("vless");
    if !(parts.scheme == vless) {
        return Err(concat3("Неверная схема URL: '", parts.scheme.as_str(), "'. Ожидается 'vless://'"));
    }
    if parts.username.as_str().is_empty() {
        return Err(String::from_str("UUID не найден в URL (ожидается vless://UUID@host:port)"));
    }
    match validate_uuid(parts.username.as_str()) {
        Err(e) => return Err(e),
        Ok(()) => {},
    }
    let server = match &parts.host {
        Some(h) => h.clone(),
        None => return Err(String::from_str("Адрес сервера не найден в URL")),
    };
    let port = match parts.port {
        Some(p) => p,
        None => return Err(String::from_str("Порт не найден в URL (ожидается vless://UUID@host:PORT)")),
    };
    let sni = match lookup_non_empty(&parts.query, "sni") {
        Some(v) => v,
        None => return Err(String::from_str("Параметр 'sni' не найден или пустой. Reality требует SNI (например, sni=www.google.com)")),
    };
    let public_key = match lookup_non_empty(&parts.query, "pbk") {
        Some(v) => v,
        None => return Err(String::from_str("Параметр 'pbk' (public key) не найден в URL")),
    };
    let short_id = match lookup_query(&parts.query, "sid") {
        Some(v) => v,
        None => String::new(),
    };
    let fingerprint = match lookup_non_empty(&parts.query, "fp") {
        Some(v) => v,
        None => String::from_str("chrome"),
    };
    let flow = lookup_non_empty(&parts.query, "flow");
    Ok(Profile {
        uuid: parts.username.clone(),
        server,
        port,
        sni,
        public_key,
        short_id,
        fingerprint,
        flow,
    })
}

fn tls_value(pr: &Profile) -> (v: JsonValue)
    ensures
        v@ == tls_block(pr@),
{
    let mut utls = new_members();
    put(&mut utls, "enabled", jv_bool(true));
    put(&mut utls, "fingerprint", jv_string(pr.fingerprint.clone()));
    let mut reality = new_members();
    put(&mut reality, "enabled", jv_bool(true));
    put(&mut reality, "public_key", jv_string(pr.public_key.clone()));
    put(&mut reality, "short_id", jv_string(pr.short_id.clone()));
    assert(members_view(utls@) =~= seq![("enabled"@, jbool(true)), ("fingerprint"@, jstr(pr.fingerprint@))]);
    assert(members_view(reality@) =~= seq![
        ("enabled"@, jbool(true)),
        ("public_key"@, jstr(pr.public_key@)),
        ("short_id"@, jstr(pr.short_id@)),
    ]);
    let mut m = new_members();
    put(&mut m, "enabled", jv_bool(true));
    put(&mut m, "server_name", jv_string(pr.sni.clone()));
    put(&mut m, "utls", jv_object(utls));
    put(&mut m, "reality", jv_object(reality));
    assert(members_view(m@) =~= tls_block(pr@)->Object_0);
    jv_object(m)
}

fn vless_outbound_value(pr: &Profile) -> (v: JsonValue)
    ensures
        v@ == vless_outbound(pr@),
{
    let mut m = new_members();
    put(&mut m, "type", jv_str("vless"));
    put(&mut m, "tag", jv_str("proxy"));
    put(&mut m, "server", jv_string(pr.server.clone()));
    put(&mut m, "server_port", jv_num(pr.port as u64));
    put(&mut m, "uuid", jv_string(pr.uuid.clone()));
    put(&mut m, "tls", tls_value(pr));
    match &pr.flow {
        Some(f) => {
            put(&mut m, "flow", jv_string(f.clone()));
        },
        None => {},
    }
    assert(members_view(m@) =~= vless_outbound(pr@)->Object_0);
    jv_object(m)
}

fn outbounds_value(pr: &Profile) -> (v: JsonValue)
    ensures
        v@ == jarr(seq![vless_outbound(pr@), direct_outbound(), block_outbound()]),
{
    let mut direct = new_members();
    put(&mut direct, "type", jv_str("direct"));
    put(&mut direct, "tag", jv_str("direct"));
    put(&mut direct, "domain_resolver", jv_str("local-dns"));
    assert(members_view(direct@) =~= direct_outbound()->Object_0);
    let mut block = new_members();
    put(&mut block, "type", jv_str("block"));
    put(&mut block, "tag", jv_str("block"));
    assert(members_view(block@) =~= block_outbound()->Object_0);
    let mut items = new_items();
    push_item(&mut items, vless_outbound_value(pr));
    push_item(&mut items, jv_object(direct));
    push_item(&mut items, jv_object(block));
    assert(items_view(items@) =~= seq![vless_outbound(pr@), direct_outbound(), block_outbound()]);
    jv_array(items)
}

fn log_value() -> (v: JsonValue)
    ensures
        v@ == log_block(),
{
    let mut m = new_members();
    put(&mut m, "level", jv_str("debug"));
    put(&mut m, "timestamp", jv_bool(true));
    assert(members_view(m@) =~= log_block()->Object_0);
    jv_object(m)
}

/// Whether the server is given as an IP address.
pub fn is_ip_server(server: &str) -> (b: bool)
    ensures
        b == server_is_ip(server@),
{
    let v = chars_of(server);
    contains_char(&v, ':') || (v.len() > 0 && is_digit(v[0]))
}

fn server_cidr_text(server: &str) -> (s: String)
    ensures
        s@ == server_cidr(server@),
{
    let v = chars_of(server);
    if contains_char(&v, ':') {
        concat2(server, "/128")
    } else {
        concat2(server, "/32")
    }
}

fn tun_value(server: &str) -> (v: JsonValue)
    ensures
        v@ == tun_inbound(server@),
{
    let mut m = new_members();
    put(&mut m, "type", jv_str("tun"));
    put(&mut m, "tag", jv_str("tun-in"));
    put(&mut m, "interface_name", jv_str("vlessok-tun"));
    put(&mut m, "address", jv_str_array1("172.19.0.1/30"));
    put(&mut m, "auto_route", jv_bool(true));
    put(&mut m, "strict_route", jv_bool(true));
    put(&mut m, "stack", jv_str("system"));
    put(&mut m, "endpoint_independent_nat", jv_bool(false));
    put(&mut m, "mtu", jv_num(1500));
    if is_ip_server(server) {
        let cidr = server_cidr_text(server);
        put(&mut m, "route_exclude_address", jv_str_array1(cidr.as_str()));
    }
    assert(members_view(m@) =~= tun_inbound(server@)->Object_0);
    jv_object(m)
}

fn dns_value(server: &str) -> (v: JsonValue)
    ensures
        v@ == dns_block(server@),
{
    let mut remote = new_members();
    put(&mut remote, "type", jv_str("https"));
    put(&mut remote, "tag", jv_str("remote-dns"));
    put(&mut remote, "server", jv_str("1.1.1.1"));
    put(&mut remote, "domain_resolver", jv_str("local-dns"));
    put(&mut remote, "detour", jv_str("proxy"));
    let mut local = new_members();
    put(&mut local, "type", jv_str("udp"));
    put(&mut local, "tag", jv_str("local-dns"));
    put(&mut local, "server", jv_str("1.1.1.1"));
    put(&mut local, "detour", jv_str("direct"));
    assert(members_view(remote@) =~= seq![
        ("type"@, jstr("https"@)),
        ("tag"@, jstr("remote-dns"@)),
        ("server"@, jstr("1.1.1.1"@)),
        ("domain_resolver"@, jstr("local-dns"@)),
        ("detour"@, jstr("proxy"@)),
    ]);
    assert(members_view(local@) =~= seq![
        ("type"@, jstr("udp"@)),
        ("tag"@, jstr("local-dns"@)),
        ("server"@, jstr("1.1.1.1"@)),
        ("detour"@, jstr("direct"@)),
    ]);
    let mut servers = new_items();
    push_item(&mut servers, jv_object(remote));
    push_item(&mut servers, jv_object(local));
    let mut suffix = new_members();
    put(&mut suffix, "domain_suffix", jv_str_array1(".local"));
    put(&mut suffix, "server", jv_str("local-dns"));
    assert(members_view(suffix@) =~= seq![("domain_suffix"@, jarr(seq![jstr(".local"@)])), ("server"@, jstr("local-dns"@))]);
    let mut rules = new_items();
    if !is_ip_server(server) {
        let mut own = new_members();
        put(&mut own, "domain", jv_str_array1(server));
        put(&mut own, "server", jv_str("local-dns"));
        assert(members_view(own@) =~= seq![("domain"@, jarr(seq![jstr(server@)])), ("server"@, jstr("local-dns"@))]);
        push_item(&mut rules, jv_object(own));
    }
    push_item(&mut rules, jv_object(suffix));
    assert(items_view(servers@) =~= dns_block(server@)->Object_0[0].1->Array_0);
    assert(items_view(rules@) =~= dns_block(server@)->Object_0[1].1->Array_0);
    let mut m = new_members();
    put(&mut m, "servers", jv_array(servers));
    put(&mut m, "rules", jv_array(rules));
    put(&mut m, "final", jv_str("remote-dns"));
    put(&mut m, "strategy", jv_str("ipv4_only"));
    assert(members_view(m@) =~= dns_block(server@)->Object_0);
    jv_object(m)
}

fn local_rule_set_value(tag: &str, path: &str) -> (v: JsonValue)
    ensures
        v@ == local_rule_set(tag@, path@),
{
    let mut m = new_members();
    put(&mut m, "tag", jv_str(tag));
    put(&mut m, "type", jv_str("local"));
    put(&mut m, "format", jv_str("source"));
    put(&mut m, "path", jv_string(replace_char(path, '\\', '/')));
    assert(members_view(m@) =~= local_rule_set(tag@, path@)->Object_0);
    jv_object(m)
}

fn remote_rule_set_value(tag: &str, url: &str) -> (v: JsonValue)
    ensures
        v@ == remote_rule_set(tag@, url@),
{
    let mut m = new_members();
    put(&mut m, "tag", jv_str(tag));
    put(&mut m, "type", jv_str("remote"));
    put(&mut m, "format", jv_str("binary"));
    put(&mut m, "url", jv_str(url));
    put(&mut m, "download_detour", jv_str("direct"));
    assert(members_view(m@) =~= remote_rule_set(tag@, url@)->Object_0);
    jv_object(m)
}

/// The text after the first `n` characters of `s`.
fn text_after(s: &str, n: usize) -> (r: String)
    requires
        n <= s@.len(),
    ensures
        r@ == s@.skip(n as int),
{
    let mut v = chars_of(s);
    let rest = v.split_off(n);
    string_of(&rest)
}

/// Appends the rule sets and proxy tags that the geo rule `g` contributes.
fn push_geo_contribution(g: &String, inside: &Option<String>, sets: &mut Vec<JsonValue>, tags: &mut Vec<String>)
    ensures
        items_view(final(sets)@) == items_view(old(sets)@) + geo_rule_contribution(g@, opt_text(*inside)).0,
        final(tags).deep_view() == old(tags).deep_view() + geo_rule_contribution(g@, opt_text(*inside)).1,
{
    let ghost c = geo_rule_contribution(g@, opt_text(*inside));
    let ghost sets0 = items_view(sets@);
    let ghost tags0 = tags.deep_view();
    if same_text(g.as_str(), "russia_pack") {
        match inside {
            Some(p) => {
                push_item(sets, local_rule_set_value("inside-pack", p.as_str()));
                push_text(tags, String::from_str("inside-pack"));
            },
            None => {},
        }
    } else if same_text(g.as_str(), "telegram_combo") {
        push_item(sets, remote_rule_set_value("geosite-telegram", "https://raw.githubusercontent.com/SagerNet/sing-geosite/rule-set/geosite-telegram.srs"));
        push_text(tags, String::from_str("geosite-telegram"));
        push_item(sets, remote_rule_set_value("geoip-telegram", "https://raw.githubusercontent.com/SagerNet/sing-geoip/rule-set/geoip-telegram.srs"));
        push_text(tags, String::from_str("geoip-telegram"));
    } else if same_text(g.as_str(), "discord_combo") {
        push_item(sets, remote_rule_set_value("geosite-discord", "https://raw.githubusercontent.com/SagerNet/sing-geosite/rule-set/geosite-discord.srs"));
        push_text(tags, String::from_str("geosite-discord"));
        push_item(sets, remote_rule_set_value("geoip-discord", "https://raw.githubusercontent.com/SagerNet/sing-geoip/rule-set/geoip-discord.srs"));
        push_text(tags, String::from_str("geoip-discord"));
    } else {
        let tag = replace_char(g.as_str(), ':', '-');
        push_text(tags, tag.clone());
        let v = chars_of(g.as_str());
        if has_prefix(&v, "geosite:") {
            let name = text_after(g.as_str(), chars_of("geosite:").len());
            let url = concat3("https://raw.githubusercontent.com/SagerNet/sing-geosite/rule-set/geosite-", name.as_str(), ".srs");
            push_item(sets, remote_rule_set_value(tag.as_str(), url.as_str()));
        } else if has_prefix(&v, "geoip:") {
            let name = text_after(g.as_str(), chars_of("geoip:").len());
            let url = concat3("https://raw.githubusercontent.com/SagerNet/sing-geoip/rule-set/geoip-", name.as_str(), ".srs");
            push_item(sets, remote_rule_set_value(tag.as_str(), url.as_str()));
        }
    }
    assert(items_view(sets@) =~= sets0 + c.0);
    assert(tags.deep_view() =~= tags0 + c.1);
}

/// Appends the rule sets and proxy tags of all geo rules, in order.
fn push_geo_contributions(gs: &Vec<String>, inside: &Option<String>, sets: &mut Vec<JsonValue>, tags: &mut Vec<String>)
    ensures
        items_view(final(sets)@) == items_view(old(sets)@) + geo_rules_contribution(gs.deep_view(), opt_text(*inside)).0,
        final(tags).deep_view() == old(tags).deep_view() + geo_rules_contribution(gs.deep_view(), opt_text(*inside)).1,
{
    let ghost sets0 = items_view(sets@);
    let ghost tags0 = tags.deep_view();
    let mut i: usize = 0;
    while i < gs.len()
        invariant
            i <= gs.len(),
            items_view(sets@) == sets0 + geo_rules_contribution(gs.deep_view().take(i as int), opt_text(*inside)).0,
            tags.deep_view() == tags0 + geo_rules_contribution(gs.deep_view().take(i as int), opt_text(*inside)).1,
        decreases gs.len() - i,
    {
        assert(gs.deep_view().take(i + 1).drop_last() =~= gs.deep_view().take(i as int));
        assert(gs.deep_view().take(i + 1).last() == gs[i as int]@);
        let ghost prev = geo_rules_contribution(gs.deep_view().take(i as int), opt_text(*inside));
        let ghost step = geo_rule_contribution(gs[i as int]@, opt_text(*inside));
        push_geo_contribution(&gs[i], inside, sets, tags);
        assert(sets0 + prev.0 + step.0 =~= sets0 + (prev.0 + step.0));
        assert(tags0 + prev.1 + step.1 =~= tags0 + (prev.1 + step.1));
        i = i + 1;
    }
    assert(gs.deep_view().take(gs.len() as int) =~= gs.deep_view());
}

fn is_rule_mode(rules: Option<&RoutingRules>) -> (b: bool)
    ensures
        b == rule_mode(rules_view(rules)),
{
    match rules {
        Some(r) => match r.routing_mode {
            RoutingMode::Rule => true,
            RoutingMode::Global => false,
        },
        None => false,
    }
}

fn lists_text(v: &Vec<String>, t: &str) -> (b: bool)
    ensures
        b == v.deep_view().contains(t@),
{
    let mut i: usize = 0;
    while i < v.len()
        invariant
            i <= v.len(),
            forall|j: int| 0 <= j < i ==> v.deep_view()[j] != t@,
        decreases v.len() - i,
    {
        if same_text(v[i].as_str(), t) {
            assert(v.deep_view()[i as int] == t@);
            return true;
        }
        i = i + 1;
    }
    false
}

fn clone_texts(v: &Vec<String>) -> (r: Vec<String>)
    ensures
        r.deep_view() == v.deep_view(),
{
    let mut r: Vec<String> = Vec::new();
    let mut i: usize = 0;
    while i < v.len()
        invariant
            i <= v.len(),
            r.deep_view() == v.deep_view().take(i as int),
        decreases v.len() - i,
    {
        push_text(&mut r, v[i].clone());
        assert(v.deep_view().take(i + 1) =~= v.deep_view().take(i as int).push(v[i as int]@));
        i = i + 1;
    }
    assert(v.deep_view().take(v.len() as int) =~= v.deep_view());
    r
}

/// Process names sent through the proxy, as [`proxy_processes`] describes.
pub fn proxy_process_names(rules: Option<&RoutingRules>) -> (r: Vec<String>)
    ensures
        r.deep_view() == proxy_processes(rules_view(rules)),
{
    match rules {
        Some(rr) => {
            if !is_rule_mode(rules) {
                let r: Vec<String> = Vec::new();
                assert(r.deep_view() =~= Seq::<Seq<char>>::empty());
                return r;
            }
            let mut names = clone_texts(&rr.processes);
            if lists_text(&rr.geo_rules, "telegram_combo") {
                push_text(&mut names, String::from_str("telegram.exe"));
            }
            if lists_text(&rr.geo_rules, "discord_combo") {
                push_text(&mut names, String::from_str("discord.exe"));
            }
            names
        },
        None => {
            let r: Vec<String> = Vec::new();
            assert(r.deep_view() =~= Seq::<Seq<char>>::empty());
            r
        },
    }
}

fn outbound_rule_value(key: &str, values: JsonValue, outbound: &str) -> (v: JsonValue)
    requires
        values@ is Array,
    ensures
        v@ == outbound_rule(key@, values@->Array_0, outbound@),
{
    let mut m = new_members();
    put(&mut m, key, values);
    put(&mut m, "outbound", jv_str(outbound));
    assert(members_view(m@) =~= outbound_rule(key@, values@->Array_0, outbound@)->Object_0);
    jv_object(m)
}

fn base_route_rules(server: &str) -> (v: Vec<JsonValue>)
    ensures
        items_view(v@) == seq![sniff_rule(), hijack_dns_rule(), server_bypass_rule(server@), private_rule()],
{
    let mut sniffers = new_items();
    push_item(&mut sniffers, jv_str("http"));
    push_item(&mut sniffers, jv_str("tls"));
    push_item(&mut sniffers, jv_str("quic"));
    assert(items_view(sniffers@) =~= seq![jstr("http"@), jstr("tls"@), jstr("quic"@)]);
    let mut sniff = new_members();
    put(&mut sniff, "action", jv_str("sniff"));
    put(&mut sniff, "sniffer", jv_array(sniffers));
    put(&mut sniff, "timeout", jv_str("100ms"));
    assert(members_view(sniff@) =~= sniff_rule()->Object_0);
    let mut ports = new_items();
    push_item(&mut ports, jv_num(53));
    let mut hijack = new_members();
    put(&mut hijack, "port", jv_array(ports));
    put(&mut hijack, "action", jv_str("hijack-dns"));
    assert(members_view(hijack@) =~= hijack_dns_rule()->Object_0);
    let bypass = if is_ip_server(server) {
        let cidr = concat2(server, "/32");
        outbound_rule_value("ip_cidr", jv_str_array1(cidr.as_str()), "direct")
    } else {
        outbound_rule_value("domain", jv_str_array1(server), "direct")
    };
    let mut private = new_members();
    put(&mut private, "ip_is_private", jv_bool(true));
    put(&mut private, "outbound", jv_str("direct"));
    assert(members_view(private@) =~= private_rule()->Object_0);
    let mut v = new_items();
    push_item(&mut v, jv_object(sniff));
    push_item(&mut v, jv_object(hijack));
    push_item(&mut v, bypass);
    push_item(&mut v, jv_object(private));
    assert(items_view(v@) =~= seq![sniff_rule(), hijack_dns_rule(), server_bypass_rule(server@), private_rule()]);
    v
}

/// The route's rules and rule sets.
fn route_parts(server: &str, rules: Option<&RoutingRules>, packs: &RulePackFiles) -> (r: (Vec<JsonValue>, Vec<JsonValue>))
    ensures
        items_view(r.0@) == route_rules(server@, rules_view(rules), packs@),
        items_view(r.1@) == route_rule_sets(rules_view(rules), packs@),
{
    let ghost rv = rules_view(rules);
    let mut route = base_route_rules(server);
    let procs = proxy_process_names(rules);
    if procs.len() > 0 {
        push_item(&mut route, outbound_rule_value("process_name", jv_str_array(&procs), "proxy"));
    }
    let mut sets = new_items();
    match &packs.outside {
        Some(p) => {
            push_item(&mut sets, local_rule_set_value("outside-pack", p.as_str()));
            push_item(&mut route, outbound_rule_value("rule_set", jv_str_array1("outside-pack"), "direct"));
        },
        None => {},
    }
    let ghost b = items_view(route@);
    let ghost outside_sets = items_view(sets@);
    assert(outside_sets =~= (match packs@.outside {
        Some(p) => seq![local_rule_set("outside-pack"@, p)],
        None => Seq::<JsonView>::empty(),
    }));
    if is_rule_mode(rules) {
        let rr = rules.unwrap();
        if rr.domains.len() > 0 {
            push_item(&mut route, outbound_rule_value("domain_suffix", jv_str_array(&rr.domains), "proxy"));
        }
        if rr.geo_rules.len() > 0 {
            let mut tags: Vec<String> = Vec::new();
            assert(tags.deep_view() =~= Seq::<Seq<char>>::empty());
            push_geo_contributions(&rr.geo_rules, &packs.inside, &mut sets, &mut tags);
            assert(tags.deep_view() =~= geo_rules_contribution(rr.geo_rules.deep_view(), packs@.inside).1);
            if tags.len() > 0 {
                push_item(&mut route, outbound_rule_value("rule_set", jv_str_array(&tags), "proxy"));
            }
        }
    }
    (route, sets)
}

fn route_value(server: &str, rules: Option<&RoutingRules>, packs: &RulePackFiles) -> (v: JsonValue)
    ensures
        v@ == route_block(server@, rules_view(rules), packs@),
{
    let (route, sets) = route_parts(server, rules, packs);
    let mut m = new_members();
    put(&mut m, "auto_detect_interface", jv_bool(true));
    put(&mut m, "find_process", jv_bool(true));
    put(&mut m, "rules", jv_array(route));
    if is_rule_mode(rules) {
        put(&mut m, "final", jv_str("direct"));
    } else {
        put(&mut m, "final", jv_str("proxy"));
    }
    if sets.len() > 0 {
        put(&mut m, "rule_set", jv_array(sets));
    }
    assert(members_view(m@) =~= route_block(server@, rules_view(rules), packs@)->Object_0);
    jv_object(m)
}

/// The sing-box document for a checked profile.
pub fn config_value(pr: &Profile, rules: Option<&RoutingRules>, packs: &RulePackFiles) -> (v: JsonValue)
    ensures
        v@ == config_document(pr@, rules_view(rules), packs@),
{
    let mut inbounds = new_items();
    push_item(&mut inbounds, tun_value(pr.server.as_str()));
    assert(items_view(inbounds@) =~= seq![tun_inbound(pr.server@)]);
    let mut m = new_members();
    put(&mut m, "log", log_value());
    put(&mut m, "outbounds", outbounds_value(pr));
    put(&mut m, "inbounds", jv_array(inbounds));
    put(&mut m, "dns", dns_value(pr.server.as_str()));
    put(&mut m, "route", route_value(pr.server.as_str(), rules, packs));
    assert(members_view(m@) =~= config_document(pr@, rules_view(rules), packs@)->Object_0);
    jv_object(m)
}

/// Builds the sing-box document for the parts of a parsed VLESS URL, or
/// answers why the URL does not describe a usable profile.
pub fn singbox_config_from_parts(parts: &UrlParts, routing_rules: Option<&RoutingRules>, packs: &RulePackFiles) -> (r: Result<JsonValue, String>)
    ensures
        json_result(r) == singbox_config_spec(parts@, rules_view(routing_rules), packs@),
{
    match profile_of(parts) {
        Ok(pr) => Ok(config_value(&pr, routing_rules, packs)),
        Err(e) => Err(e),
    }
}

/// Parses a VLESS URL (`vless://UUID@SERVER:PORT/?...&sni=..&pbk=..#NAME`,
/// surrounding whitespace ignored) and builds the sing-box document that
/// runs it: a TUN inbound, the VLESS + Reality outbound, DNS, and the route
/// that the routing rules and the existing rule-pack files call for.
pub fn vless_url_to_singbox_config(url_str: &str, routing_rules: Option<&RoutingRules>, packs: &RulePackFiles) -> (r: Result<JsonValue, String>)
    ensures
        json_result(r) == vless_config_spec(url_str@, rules_view(routing_rules), packs@),
{
    let raw_url = trim_str(url_str);
    match parse_url(raw_url) {
        Err(e) => Err(concat2("Не удалось разобрать URL: ", e.as_str())),
        Ok(parts) => singbox_config_from_parts(&parts, routing_rules, packs),
    }
}

} // verus!
