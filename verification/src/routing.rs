use vstd::prelude::*;
use crate::text::{
    lemma_deep_view_push, push_text,
    concat3, eq_ignore_ascii_case, eq_ignore_ascii_case_spec, ends_with, has_suffix, chars_of, contains_char, first_index, has_prefix, is_alnum, is_ascii_alnum, lemma_first_index,
    lemma_first_index_bound, lowercase_str, lowercased, push_char, same_text, starts_with,
    string_of, trim_str, trimmed, no_ascii_upper, is_ascii_upper,
};

verus! {

broadcast use vstd::string::group_string_axioms;

// ------------------------------------------------------------------
// Types
// ------------------------------------------------------------------

/// How traffic is routed: everything through the proxy, or only what the
/// user's rules select.
#[derive(Clone, Copy, Debug, PartialEq, Eq, Structural)]
pub enum RoutingMode {
    Global,
    Rule,
}

/// The user's routing rules: the mode plus domain, geo and process lists.
#[derive(Clone, Debug)]
pub struct RoutingRules {
    pub routing_mode: RoutingMode,
    pub domains: Vec<String>,
    pub geo_rules: Vec<String>,
    pub processes: Vec<String>,
}

/// The abstract value of a [`RoutingRules`].
pub struct RulesView {
    pub mode: RoutingMode,
    pub domains: Seq<Seq<char>>,
    pub geo_rules: Seq<Seq<char>>,
    pub processes: Seq<Seq<char>>,
}

impl View for RoutingRules {
    type V = RulesView;

    open spec fn view(&self) -> RulesView {
        RulesView {
            mode: self.routing_mode,
            domains: self.domains.deep_view(),
            geo_rules: self.geo_rules.deep_view(),
            processes: self.processes.deep_view(),
        }
    }
}

/// The abstract value of a text result.
pub open spec fn text_result(r: Result<String, String>) -> Result<Seq<char>, Seq<char>> {
    match r {
        Ok(s) => Ok(s@),
        Err(e) => Err(e@),
    }
}

/// The mode that a stored rule file without a mode gets.
pub fn default_routing_mode() -> (m: RoutingMode)
    ensures
        m == RoutingMode::Global,
{
    RoutingMode::Global
}

/// The mode named by a setting: `"rule"` selects rule mode, anything else
/// global mode.
pub fn routing_mode_from_name(name: &str) -> (m: RoutingMode)
    ensures
        m == (if name@ == "rule"@ { RoutingMode::Rule } else { RoutingMode::Global }),
{
    if same_text(name, "rule") {
        RoutingMode::Rule
    } else {
        RoutingMode::Global
    }
}

/// The rules a new installation starts with: rule mode with the Russia pack.
pub open spec fn default_rules() -> RulesView {
    RulesView {
        mode: RoutingMode::Rule,
        domains: Seq::empty(),
        geo_rules: seq!["russia_pack"@],
        processes: Seq::empty(),
    }
}

impl Default for RoutingRules {
    fn default() -> (r: Self)
        ensures
            r@ == default_rules(),
    {
        let mut geo_rules: Vec<String> = Vec::new();
        geo_rules.push(String::from_str("russia_pack"));
        let r = RoutingRules {
            routing_mode: RoutingMode::Rule,
            domains: Vec::new(),
            geo_rules,
            processes: Vec::new(),
        };
        assert(r@.geo_rules =~= seq!["russia_pack"@]);
        assert(r@.domains =~= Seq::<Seq<char>>::empty());
        assert(r@.processes =~= Seq::<Seq<char>>::empty());
        r
    }
}

// ------------------------------------------------------------------
// Domain normalisation
// ------------------------------------------------------------------

/// `s` without the prefix `p`, if it has it.
pub open spec fn strip_one(s: Seq<char>, p: Seq<char>) -> Seq<char> {
    if starts_with(s, p) {
        s.skip(p.len() as int)
    } else {
        s
    }
}

/// Removes the first of `https://`, `http://`, `domain:`, `full:` that
/// the text begins with.
pub open spec fn strip_first_scheme(s: Seq<char>) -> Seq<char> {
    if starts_with(s, "https://"@) {
        s.skip("https://"@.len() as int)
    } else if starts_with(s, "http://"@) {
        s.skip("http://"@.len() as int)
    } else if starts_with(s, "domain:"@) {
        s.skip("domain:"@.len() as int)
    } else if starts_with(s, "full:"@) {
        s.skip("full:"@.len() as int)
    } else {
        s
    }
}

/// Removes each of `https://`, `http://`, `domain:`, `full:` in turn,
/// where the text then begins with it.
pub open spec fn strip_each_scheme(s: Seq<char>) -> Seq<char> {
    strip_one(strip_one(strip_one(strip_one(s, "https://"@), "http://"@), "domain:"@), "full:"@)
}

pub open spec fn is_url_delim(c: char) -> bool {
    c == '/' || c == '?' || c == '#'
}

pub open spec fn url_delim() -> spec_fn(char) -> bool {
    |c: char| is_url_delim(c)
}

pub open spec fn colon() -> spec_fn(char) -> bool {
    |c: char| c == ':'
}

/// Letters, digits, `-`, `.` and `_` may appear in a domain.
pub open spec fn domain_char_ok(c: char) -> bool {
    is_ascii_alnum(c) || c == '-' || c == '.' || c == '_'
}

pub open spec fn bad_domain_char() -> spec_fn(char) -> bool {
    |c: char| !domain_char_ok(c)
}

/// The host part of a (prefix-stripped) text: without `www.`, and cut at
/// the first `/`, `?` or `#`, then at the first `:`.
pub open spec fn host_part(s: Seq<char>) -> Seq<char> {
    let a = strip_one(s, "www."@);
    let b = a.take(first_index(a, url_delim()) as int);
    b.take(first_index(b, colon()) as int)
}

pub open spec fn msg_domain_empty() -> Seq<char> {
    "Домен не может быть пустым"@
}

pub open spec fn msg_domain_no_dot() -> Seq<char> {
    "Неверный формат домена (нет точки)"@
}

pub open spec fn msg_domain_bad_char(c: char) -> Seq<char> {
    "Домен содержит недопустимый символ: '"@ + seq![c] + "'"@
}

/// The checks a host must pass to be a domain.
pub open spec fn check_domain(s: Seq<char>) -> Result<Seq<char>, Seq<char>> {
    if s.len() == 0 {
        Err(msg_domain_empty())
    } else if !s.contains('.') {
        Err(msg_domain_no_dot())
    } else if first_index(s, bad_domain_char()) < s.len() {
        Err(msg_domain_bad_char(s[first_index(s, bad_domain_char()) as int]))
    } else {
        Ok(s)
    }
}

/// The domain that an already trimmed and lower-cased input denotes, or
/// why it denotes none.
pub open spec fn domain_of_lowered(s: Seq<char>) -> Result<Seq<char>, Seq<char>> {
    check_domain(host_part(strip_each_scheme(strip_first_scheme(s))))
}

/// The domain that a user's input denotes, or why it denotes none.
pub open spec fn normalize_domain_spec(input: Seq<char>) -> Result<Seq<char>, Seq<char>> {
    domain_of_lowered(lowercased(trimmed(input)))
}

fn strip_prefix_vec(v: Vec<char>, p: &str) -> (r: Vec<char>)
    ensures
        r@ == strip_one(v@, p@),
        no_ascii_upper(v@) ==> no_ascii_upper(r@),
{
    if has_prefix(&v, p) {
        let n = chars_of(p).len();
        let ghost whole = v@;
        let mut v = v;
        let rest = v.split_off(n);
        assert(rest@ =~= whole.skip(p@.len() as int));
        rest
    } else {
        v
    }
}

/// Index of the first `/`, `?` or `#`.
fn find_url_delim(v: &Vec<char>) -> (k: usize)
    ensures
        k == first_index(v@, url_delim()),
{
    let mut i: usize = 0;
    while i < v.len() && !(v[i] == '/' || v[i] == '?' || v[i] == '#')
        invariant
            i <= v.len(),
            forall|j: int| 0 <= j < i ==> !url_delim()(#[trigger] v@[j]),
        decreases v.len() - i,
    {
        i = i + 1;
    }
    proof {
        lemma_first_index(v@, url_delim(), i as int);
    }
    i
}

/// Index of the first `:`.
fn find_colon(v: &Vec<char>) -> (k: usize)
    ensures
        k == first_index(v@, colon()),
{
    let mut i: usize = 0;
    while i < v.len() && v[i] != ':'
        invariant
            i <= v.len(),
            forall|j: int| 0 <= j < i ==> !colon()(#[trigger] v@[j]),
        decreases v.len() - i,
    {
        i = i + 1;
    }
    proof {
        lemma_first_index(v@, colon(), i as int);
    }
    i
}

/// Index of the first character that may not appear in a domain.
fn find_bad_domain_char(v: &Vec<char>) -> (k: usize)
    ensures
        k == first_index(v@, bad_domain_char()),
{
    let mut i: usize = 0;
    while i < v.len() && (is_alnum(v[i]) || v[i] == '-' || v[i] == '.' || v[i] == '_')
        invariant
            i <= v.len(),
            forall|j: int| 0 <= j < i ==> !bad_domain_char()(#[trigger] v@[j]),
        decreases v.len() - i,
    {
        i = i + 1;
    }
    proof {
        lemma_first_index(v@, bad_domain_char(), i as int);
    }
    i
}

/// Turns user input (a URL, `domain:`/`full:` entry or bare host) into the
/// domain it names: trimmed, lower-cased, without scheme, `www.`, path and
/// port. Fails when that is empty, has no dot, or holds a character other
/// than letters, digits, `-`, `.`, `_`.
pub fn normalize_domain(input: &str) -> (r: Result<String, String>)
    ensures
        text_result(r) == normalize_domain_spec(input@),
        r is Ok ==> no_ascii_upper(r->Ok_0@),
        r is Ok && !starts_with(r->Ok_0@, "www."@) ==> normalize_domain_spec(r->Ok_0@) == text_result(r),
{
    let t = trim_str(input);
    let low = lowercase_str(t);
    let s0 = chars_of(low.as_str());
    let s1 = if has_prefix(&s0, "https://") {
        strip_prefix_vec(s0, "https://")
    } else if has_prefix(&s0, "http://") {
        strip_prefix_vec(s0, "http://")
    } else if has_prefix(&s0, "domain:") {
        strip_prefix_vec(s0, "domain:")
    } else {
        strip_prefix_vec(s0, "full:")
    };
    assert(s1@ == strip_first_scheme(lowercased(trimmed(input@))));
    let s2 = strip_prefix_vec(s1, "https://");
    let s2 = strip_prefix_vec(s2, "http://");
    let s2 = strip_prefix_vec(s2, "domain:");
    let s2 = strip_prefix_vec(s2, "full:");
    let mut s = strip_prefix_vec(s2, "www.");
    let k = find_url_delim(&s);
    proof { lemma_first_index_bound(s@, url_delim()); }
    let ghost before_cut = s@;
    s.truncate(k);
    assert(no_ascii_upper(s@)) by {
        assert forall|i: int| 0 <= i < s@.len() implies !is_ascii_upper(#[trigger] s@[i]) by {
            assert(s@[i] == before_cut[i]);
        }
    }
    let k = find_colon(&s);
    proof { lemma_first_index_bound(s@, colon()); }
    let ghost before_cut = s@;
    s.truncate(k);
    assert(no_ascii_upper(s@)) by {
        assert forall|i: int| 0 <= i < s@.len() implies !is_ascii_upper(#[trigger] s@[i]) by {
            assert(s@[i] == before_cut[i]);
        }
    }
    if s.len() == 0 {
        return Err(String::from_str("Домен не может быть пустым"));
    }
    if !contains_char(&s, '.') {
        return Err(String::from_str("Неверный формат домена (нет точки)"));
    }
    let k = find_bad_domain_char(&s);
    if k < s.len() {
        let mut m = String::from_str("Домен содержит недопустимый символ: '");
        push_char(&mut m, s[k]);
        m.append("'");
        assert(m@ =~= msg_domain_bad_char(s@[k as int]));
        return Err(m);
    }
    let d = string_of(&s);
    proof {
        if !starts_with(d@, "www."@) {
            crate::routing_laws::lemma_normalized_domain_fixed(input@);
        }
    }
    Ok(d)
}

// ------------------------------------------------------------------
// List helpers
// ------------------------------------------------------------------

/// Keeps the entries that differ from `t`.
pub open spec fn not_text(t: Seq<char>) -> spec_fn(Seq<char>) -> bool {
    |x: Seq<char>| x != t
}

/// Keeps the entries that do not match `t` ignoring ASCII case.
pub open spec fn not_ci_text(t: Seq<char>) -> spec_fn(Seq<char>) -> bool {
    |x: Seq<char>| !eq_ignore_ascii_case_spec(x, t)
}

/// Some entry matches `t` ignoring ASCII case.
pub open spec fn has_ci_match(s: Seq<Seq<char>>, t: Seq<char>) -> bool {
    exists|i: int| 0 <= i < s.len() && eq_ignore_ascii_case_spec(#[trigger] s[i], t)
}

fn contains_text(v: &Vec<String>, t: &String) -> (b: bool)
    ensures
        b == v.deep_view().contains(t@),
{
    let mut i: usize = 0;
    while i < v.len()
        invariant
            i <= v.len(),
            forall|j: int| 0 <= j < i ==> v.deep_view()[j] != t@,
        decreases v.len() - i,
    {
        if v[i] == *t {
            assert(v.deep_view()[i as int] == t@);
            return true;
        }
        i = i + 1;
    }
    false
}

fn any_ci_match(v: &Vec<String>, t: &str) -> (b: bool)
    ensures
        b == has_ci_match(v.deep_view(), t@),
{
    let mut i: usize = 0;
    while i < v.len()
        invariant
            i <= v.len(),
            forall|j: int| 0 <= j < i ==> !eq_ignore_ascii_case_spec(#[trigger] v.deep_view()[j], t@),
        decreases v.len() - i,
    {
        if eq_ignore_ascii_case(v[i].as_str(), t) {
            assert(eq_ignore_ascii_case_spec(v.deep_view()[i as int], t@));
            return true;
        }
        i = i + 1;
    }
    false
}

/// The entries of `v` that `keep` (`keep_ci` selects the case-insensitive
/// test) admits for the text `t`, in their order.
fn retain_texts(v: &Vec<String>, t: &str, keep_ci: bool) -> (r: Vec<String>)
    ensures
        r.deep_view() == v.deep_view().filter(
            if keep_ci { not_ci_text(t@) } else { not_text(t@) },
        ),
{
    let ghost pred = if keep_ci { not_ci_text(t@) } else { not_text(t@) };
    let target = String::from_str(t);
    let mut out: Vec<String> = Vec::new();
    let mut i: usize = 0;
    while i < v.len()
        invariant
            i <= v.len(),
            target@ == t@,
            pred == (if keep_ci { not_ci_text(t@) } else { not_text(t@) }),
            out.deep_view() == v.deep_view().take(i as int).filter(pred),
        decreases v.len() - i,
    {
        let keep = if keep_ci {
            !eq_ignore_ascii_case(v[i].as_str(), t)
        } else {
            !(v[i] == target)
        };
        proof {
            assert(v.deep_view().take(i + 1) =~= v.deep_view().take(i as int).push(v.deep_view()[i as int]));
            v.deep_view().take(i as int).lemma_filter_push(v.deep_view()[i as int], pred);
        }
        if keep {
            let ghost before = out@;
            out.push(v[i].clone());
            proof {
                lemma_deep_view_push(before, v@[i as int]);
                assert(out.deep_view() =~= before.map_values(|s: String| s@).push(v@[i as int]@));
            }
        }
        i = i + 1;
    }
    assert(v.deep_view().take(v.len() as int) =~= v.deep_view());
    out
}

// ------------------------------------------------------------------
// Rule list operations
// ------------------------------------------------------------------

pub open spec fn msg_domain_duplicate(d: Seq<char>) -> Seq<char> {
    "Домен '"@ + d + "' уже в списке"@
}

pub open spec fn msg_geo_rule_unknown() -> Seq<char> {
    "Правило должно начинаться с 'geosite:' или 'geoip:' или быть известным пресетом"@
}

pub open spec fn msg_geo_rule_duplicate(r: Seq<char>) -> Seq<char> {
    "Правило '"@ + r + "' уже в списке"@
}

pub open spec fn msg_process_not_exe() -> Seq<char> {
    "Имя процесса должно заканчиваться на '.exe'"@
}

pub open spec fn msg_process_duplicate(n: Seq<char>) -> Seq<char> {
    "Процесс '"@ + n + "' уже в списке"@
}

pub open spec fn with_mode(r: RulesView, mode: RoutingMode) -> RulesView {
    RulesView { mode, domains: r.domains, geo_rules: r.geo_rules, processes: r.processes }
}

pub open spec fn with_domains(r: RulesView, d: Seq<Seq<char>>) -> RulesView {
    RulesView { mode: r.mode, domains: d, geo_rules: r.geo_rules, processes: r.processes }
}

pub open spec fn with_geo_rules(r: RulesView, g: Seq<Seq<char>>) -> RulesView {
    RulesView { mode: r.mode, domains: r.domains, geo_rules: g, processes: r.processes }
}

pub open spec fn with_processes(r: RulesView, p: Seq<Seq<char>>) -> RulesView {
    RulesView { mode: r.mode, domains: r.domains, geo_rules: r.geo_rules, processes: p }
}

/// Effect and answer of adding the domain that `input` names.
pub open spec fn add_domain_spec(r: RulesView, input: Seq<char>) -> (RulesView, Result<Seq<char>, Seq<char>>) {
    match normalize_domain_spec(input) {
        Err(e) => (r, Err(e)),
        Ok(d) => if r.domains.contains(d) {
            (r, Err(msg_domain_duplicate(d)))
        } else {
            (with_domains(r, r.domains.push(d)), Ok(d))
        },
    }
}

/// The presets that stand for a bundle of rule sets.
pub open spec fn is_geo_preset(g: Seq<char>) -> bool {
    g == "russia_pack"@ || g == "telegram_combo"@ || g == "discord_combo"@
}

/// A geo rule is a `geosite:`/`geoip:` entry or a preset.
pub open spec fn is_valid_geo_rule(g: Seq<char>) -> bool {
    starts_with(g, "geosite:"@) || starts_with(g, "geoip:"@) || is_geo_preset(g)
}

/// The geo rule that `input` names: trimmed and lower-cased.
pub open spec fn geo_rule_of(input: Seq<char>) -> Seq<char> {
    lowercased(trimmed(input))
}

/// Every stored geo rule is well formed and holds no ASCII capital letter.
pub open spec fn geo_rules_kept_lower(gs: Seq<Seq<char>>) -> bool {
    forall|i: int| 0 <= i < gs.len() ==> is_valid_geo_rule(#[trigger] gs[i]) && no_ascii_upper(gs[i])
}

/// Effect and answer of adding the geo rule that `input` names.
pub open spec fn add_geo_rule_spec(r: RulesView, input: Seq<char>) -> (RulesView, Result<Seq<char>, Seq<char>>) {
    let g = geo_rule_of(input);
    if !is_valid_geo_rule(g) {
        (r, Err(msg_geo_rule_unknown()))
    } else if r.geo_rules.contains(g) {
        (r, Err(msg_geo_rule_duplicate(g)))
    } else {
        (with_geo_rules(r, r.geo_rules.push(g)), Ok(g))
    }
}

/// Effect and answer of adding the process that `input` names.
pub open spec fn add_process_spec(r: RulesView, input: Seq<char>) -> (RulesView, Result<Seq<char>, Seq<char>>) {
    let n = trimmed(input);
    if !ends_with(lowercased(n), ".exe"@) {
        (r, Err(msg_process_not_exe()))
    } else if has_ci_match(r.processes, n) {
        (r, Err(msg_process_duplicate(n)))
    } else {
        (with_processes(r, r.processes.push(n)), Ok(n))
    }
}

impl RoutingRules {
    /// Selects the routing mode; the lists stay as they are.
    pub fn set_mode(&mut self, mode: RoutingMode)
        ensures
            final(self)@ == with_mode(old(self)@, mode),
    {
        self.routing_mode = mode;
    }

    /// Adds the domain that `input` names and answers it; fails, leaving
    /// the rules as they are, when the input names no domain or the domain
    /// is already listed.
    pub fn add_domain(&mut self, input: &str) -> (res: Result<String, String>)
        ensures
            (final(self)@, text_result(res)) == add_domain_spec(old(self)@, input@),
    {
        let domain = match normalize_domain(input) {
            Ok(d) => d,
            Err(e) => return Err(e),
        };
        if contains_text(&self.domains, &domain) {
            let m = concat3("Домен '", domain.as_str(), "' уже в списке");
            return Err(m);
        }
        push_text(&mut self.domains, domain.clone());
        Ok(domain)
    }

    /// Removes every occurrence of `domain` from the domain list.
    pub fn remove_domain(&mut self, domain: &str)
        ensures
            final(self)@ == with_domains(old(self)@, old(self)@.domains.filter(not_text(domain@))),
    {
        self.domains = retain_texts(&self.domains, domain, false);
    }

    /// Adds the geo rule that `input` names (trimmed, lower-cased) and
    /// answers it; fails when it is neither a `geosite:`/`geoip:` entry nor
    /// a known preset, or is already listed.
    pub fn add_geo_rule(&mut self, input: &str) -> (res: Result<String, String>)
        ensures
            (final(self)@, text_result(res)) == add_geo_rule_spec(old(self)@, input@),
            res is Ok ==> no_ascii_upper(res->Ok_0@),
            geo_rules_kept_lower(old(self)@.geo_rules) ==> geo_rules_kept_lower(final(self)@.geo_rules),
    {
        let rule = lowercase_str(trim_str(input));
        let v = chars_of(rule.as_str());
        if !has_prefix(&v, "geosite:") && !has_prefix(&v, "geoip:") && !same_text(rule.as_str(), "russia_pack")
            && !same_text(rule.as_str(), "telegram_combo") && !same_text(rule.as_str(), "discord_combo") {
            return Err(String::from_str("Правило должно начинаться с 'geosite:' или 'geoip:' или быть известным пресетом"));
        }
        if contains_text(&self.geo_rules, &rule) {
            return Err(concat3("Правило '", rule.as_str(), "' уже в списке"));
        }
        push_text(&mut self.geo_rules, rule.clone());
        Ok(rule)
    }

    /// Removes every occurrence of `rule` from the geo rule list.
    pub fn remove_geo_rule(&mut self, rule: &str)
        ensures
            final(self)@ == with_geo_rules(old(self)@, old(self)@.geo_rules.filter(not_text(rule@))),
    {
        self.geo_rules = retain_texts(&self.geo_rules, rule, false);
    }

    /// Adds the process that `input` names (trimmed) and answers it; fails
    /// when the name does not end in `.exe` (in any case) or a process of
    /// that name, ignoring ASCII case, is already listed.
    pub fn add_process(&mut self, input: &str) -> (res: Result<String, String>)
        ensures
            (final(self)@, text_result(res)) == add_process_spec(old(self)@, input@),
    {
        let name = String::from_str(trim_str(input));
        let low = lowercase_str(name.as_str());
        if !has_suffix(&chars_of(low.as_str()), ".exe") {
            return Err(String::from_str("Имя процесса должно заканчиваться на '.exe'"));
        }
        if any_ci_match(&self.processes, name.as_str()) {
            return Err(concat3("Процесс '", name.as_str(), "' уже в списке"));
        }
        push_text(&mut self.processes, name.clone());
        Ok(name)
    }

    /// Removes every process whose name matches `name` ignoring ASCII case.
    pub fn remove_process(&mut self, name: &str)
        ensures
            final(self)@ == with_processes(old(self)@, old(self)@.processes.filter(not_ci_text(name@))),
    {
        self.processes = retain_texts(&self.processes, name, true);
    }
}

} // verus!
