use vstd::prelude::*;
use crate::routing::{
    RoutingMode, RulesView, add_domain_spec, add_geo_rule_spec, add_process_spec, msg_domain_duplicate,
    msg_geo_rule_duplicate, msg_process_duplicate, bad_domain_char,
    colon, domain_of_lowered, domain_char_ok, has_ci_match, host_part, normalize_domain_spec,
    not_ci_text, not_text, strip_each_scheme, strip_first_scheme, strip_one, url_delim,
    with_domains, with_geo_rules, with_mode, with_processes, geo_rules_kept_lower,
};
use crate::text::{
    ascii_lower_seq, ends_with, eq_ignore_ascii_case_spec, first_index, is_unicode_whitespace, lemma_first_index,
    lemma_first_index_bound, lowercased, no_ascii_upper, not_whitespace, starts_with, trim_end_len,
    trimmed,
};

verus! {

broadcast use vstd::seq_lib::group_seq_properties;

/// Every pair of entries, earlier first, is related by `rel`.
pub open spec fn pairwise(s: Seq<Seq<char>>, rel: spec_fn(Seq<char>, Seq<char>) -> bool) -> bool {
    forall|i: int, j: int| 0 <= i < j < s.len() ==> #[trigger] rel(s[i], s[j])
}

pub open spec fn differ() -> spec_fn(Seq<char>, Seq<char>) -> bool {
    |a: Seq<char>, b: Seq<char>| a != b
}

pub open spec fn differ_ignoring_case() -> spec_fn(Seq<char>, Seq<char>) -> bool {
    |a: Seq<char>, b: Seq<char>| !eq_ignore_ascii_case_spec(a, b)
}

/// No domain or geo rule is listed twice, and no two processes have names
/// that match ignoring ASCII case.
pub open spec fn rules_distinct(r: RulesView) -> bool {
    pairwise(r.domains, differ()) && pairwise(r.geo_rules, differ()) && pairwise(
        r.processes,
        differ_ignoring_case(),
    )
}

proof fn lemma_filter_all(s: Seq<Seq<char>>, p: spec_fn(Seq<char>) -> bool)
    requires
        forall|i: int| 0 <= i < s.len() ==> p(#[trigger] s[i]),
    ensures
        s.filter(p) == s,
    decreases s.len(),
{
    if s.len() > 0 {
        let init = s.drop_last();
        assert forall|i: int| 0 <= i < init.len() implies p(#[trigger] init[i]) by {
            assert(init[i] == s[i]);
        }
        lemma_filter_all(init, p);
        assert(init.push(s.last()) =~= s);
        init.lemma_filter_push(s.last(), p);
    }
}

proof fn lemma_filter_pairwise(
    s: Seq<Seq<char>>,
    p: spec_fn(Seq<char>) -> bool,
    rel: spec_fn(Seq<char>, Seq<char>) -> bool,
)
    requires
        pairwise(s, rel),
    ensures
        pairwise(s.filter(p), rel),
    decreases s.len(),
{
    if s.len() > 0 {
        let init = s.drop_last();
        let x = s.last();
        assert(pairwise(init, rel)) by {
            assert forall|i: int, j: int| 0 <= i < j < init.len() implies #[trigger] rel(init[i], init[j]) by {
                assert(init[i] == s[i] && init[j] == s[j]);
            }
        }
        lemma_filter_pairwise(init, p, rel);
        assert(init.push(x) =~= s);
        init.lemma_filter_push(x, p);
        if p(x) {
            let f = init.filter(p);
            assert forall|i: int, j: int| 0 <= i < j < f.push(x).len() implies #[trigger] rel(f.push(x)[i], f.push(x)[j]) by {
                if j == f.len() {
                    assert(f.contains(f[i]));
                    init.lemma_filter_contains_rev(p, f[i]);
                    let k = choose|k: int| 0 <= k < init.len() && init[k] == f[i];
                    assert(s[k] == f[i] && s[s.len() - 1] == x);
                } else {
                    assert(f.push(x)[i] == f[i] && f.push(x)[j] == f[j]);
                }
            }
        }
    }
}

// ------------------------------------------------------------------
// Laws of domain normalisation
// ------------------------------------------------------------------

/// A normalised domain is non-empty, holds a dot, and consists only of
/// letters, digits, `-`, `.` and `_`.
pub proof fn law_normalized_domain_is_well_formed(input: Seq<char>)
    ensures
        normalize_domain_spec(input) is Ok ==> {
            let d = normalize_domain_spec(input)->Ok_0;
            &&& d.len() > 0
            &&& d.contains('.')
            &&& forall|i: int| 0 <= i < d.len() ==> plain_domain_char(#[trigger] d[i])
        },
{
    let h = host_part(strip_each_scheme(strip_first_scheme(lowercased(trimmed(input)))));
    lemma_first_index_bound(h, bad_domain_char());
    if normalize_domain_spec(input) is Ok {
        assert forall|i: int| 0 <= i < h.len() implies plain_domain_char(#[trigger] h[i]) by {
            assert(!bad_domain_char()(h[i]));
        }
    }
}

proof fn lemma_not_prefixed_by_colon_text(d: Seq<char>, p: Seq<char>, k: int)
    requires
        forall|i: int| 0 <= i < d.len() ==> domain_char_ok(#[trigger] d[i]),
        0 <= k < p.len(),
        p[k] == ':' || p[k] == '/',
    ensures
        !starts_with(d, p),
{
    if starts_with(d, p) {
        assert(d.subrange(0, p.len() as int)[k] == d[k]);
        assert(domain_char_ok(d[k]));
    }
}

/// A text of domain characters with a dot, not beginning with `www.`, is
/// the domain it denotes once lower-cased.
proof fn lemma_domain_text_is_own_domain(d: Seq<char>)
    requires
        d.len() > 0,
        d.contains('.'),
        forall|i: int| 0 <= i < d.len() ==> domain_char_ok(#[trigger] d[i]),
        !starts_with(d, "www."@),
    ensures
        domain_of_lowered(d) == Ok::<Seq<char>, Seq<char>>(d),
{
    reveal_strlit("https://");
    reveal_strlit("http://");
    reveal_strlit("domain:");
    reveal_strlit("full:");
    lemma_not_prefixed_by_colon_text(d, "https://"@, 5);
    lemma_not_prefixed_by_colon_text(d, "http://"@, 4);
    lemma_not_prefixed_by_colon_text(d, "domain:"@, 6);
    lemma_not_prefixed_by_colon_text(d, "full:"@, 4);
    assert(strip_first_scheme(d) == d);
    assert(strip_each_scheme(d) == d);
    assert(strip_one(d, "www."@) == d);
    assert forall|j: int| 0 <= j < d.len() implies !url_delim()(#[trigger] d[j]) by {
        assert(domain_char_ok(d[j]));
    }
    lemma_first_index(d, url_delim(), d.len() as int);
    assert(d.take(d.len() as int) =~= d);
    assert forall|j: int| 0 <= j < d.len() implies !colon()(#[trigger] d[j]) by {
        assert(domain_char_ok(d[j]));
    }
    lemma_first_index(d, colon(), d.len() as int);
    assert(host_part(d) == d);
    assert forall|j: int| 0 <= j < d.len() implies !bad_domain_char()(#[trigger] d[j]) by {
        assert(domain_char_ok(d[j]));
    }
    lemma_first_index(d, bad_domain_char(), d.len() as int);
}

/// Once an input is trimmed and lower-cased, the rest of normalisation is
/// idempotent: applied to the domain it produced, it gives that domain
/// back, unless the domain itself begins with `www.` (which a second pass
/// would strip).
pub proof fn law_domain_of_lowered_idempotent(s: Seq<char>)
    requires
        domain_of_lowered(s) is Ok,
        !starts_with(domain_of_lowered(s)->Ok_0, "www."@),
    ensures
        domain_of_lowered(domain_of_lowered(s)->Ok_0) == domain_of_lowered(s),
{
    let d = domain_of_lowered(s)->Ok_0;
    let h = host_part(strip_each_scheme(strip_first_scheme(s)));
    lemma_first_index_bound(h, bad_domain_char());
    assert forall|i: int| 0 <= i < d.len() implies domain_char_ok(#[trigger] d[i]) by {
        assert(!bad_domain_char()(h[i]));
    }
    lemma_domain_text_is_own_domain(d);
}

/// A plain domain character: an ASCII letter or digit, `-`, `.` or `_`.
pub open spec fn plain_domain_char(c: char) -> bool {
    ('a' <= c && c <= 'z') || ('A' <= c && c <= 'Z') || ('0' <= c && c <= '9') || c == '-' || c == '.' || c == '_'
}

/// A text made only of ASCII letters, digits, `-`, `.` and `_` that holds
/// a dot normalises to itself lower-cased (unless, lower-cased, it begins
/// with `www.`, which is stripped). In particular no letter or digit is
/// ever refused.
pub proof fn law_plain_domain_normalises_to_itself(s: Seq<char>)
    requires
        s.contains('.'),
        forall|i: int| 0 <= i < s.len() ==> plain_domain_char(#[trigger] s[i]),
        !starts_with(ascii_lower_seq(s), "www."@),
    ensures
        normalize_domain_spec(s) == Ok::<Seq<char>, Seq<char>>(ascii_lower_seq(s)),
{
    assert forall|i: int| 0 <= i < s.len() implies domain_char_ok(#[trigger] s[i]) by {
        assert(plain_domain_char(s[i]));
    }
    lemma_domain_text_trimmed(s);
    assert(vstd::utf8::is_ascii_chars(s)) by {
        assert forall|i: int| 0 <= i < s.len() implies '\0' <= #[trigger] s[i] <= '\u{7f}' by {
            assert(plain_domain_char(s[i]));
        }
    }
    let d = ascii_lower_seq(s);
    assert(lowercased(trimmed(s)) == d);
    assert forall|i: int| 0 <= i < d.len() implies domain_char_ok(#[trigger] d[i]) by {
        assert(plain_domain_char(s[i]));
        if crate::text::is_ascii_upper(s[i]) {
            assert('a' <= d[i] <= 'z');
        }
    }
    let k = choose|k: int| 0 <= k < s.len() && s[k] == '.';
    assert(d[k] == '.');
    assert(d.contains('.'));
    lemma_domain_text_is_own_domain(d);
}

/// A text of domain characters (non-empty) is its own trimmed form.
proof fn lemma_domain_text_trimmed(d: Seq<char>)
    requires
        d.len() > 0,
        forall|i: int| 0 <= i < d.len() ==> domain_char_ok(#[trigger] d[i]),
    ensures
        trimmed(d) == d,
{
    assert(domain_char_ok(d[0]));
    assert(not_whitespace()(d[0]));
    lemma_first_index(d, not_whitespace(), 0);
    assert(domain_char_ok(d.last()));
    assert(!is_unicode_whitespace(d.last()));
    assert(trim_end_len(d) == d.len());
    assert(d.subrange(0, d.len() as int) =~= d);
}

/// A normalised domain without capitals and not beginning with `www.`
/// normalises to itself.
pub(crate) proof fn lemma_normalized_domain_fixed(input: Seq<char>)
    requires
        normalize_domain_spec(input) is Ok,
        no_ascii_upper(normalize_domain_spec(input)->Ok_0),
        !starts_with(normalize_domain_spec(input)->Ok_0, "www."@),
    ensures
        normalize_domain_spec(normalize_domain_spec(input)->Ok_0) == normalize_domain_spec(input),
{
    let d = normalize_domain_spec(input)->Ok_0;
    law_normalized_domain_is_well_formed(input);
    assert forall|i: int| 0 <= i < d.len() implies domain_char_ok(#[trigger] d[i]) by {
        assert(plain_domain_char(d[i]));
    }
    lemma_domain_text_trimmed(d);
    assert(vstd::utf8::is_ascii_chars(d)) by {
        assert forall|i: int| 0 <= i < d.len() implies '\0' <= #[trigger] d[i] <= '\u{7f}' by {
            assert(domain_char_ok(d[i]));
        }
    }
    assert(ascii_lower_seq(d) =~= d) by {
        assert forall|i: int| 0 <= i < d.len() implies ascii_lower_seq(d)[i] == d[i] by {
            assert(!crate::text::is_ascii_upper(d[i]));
        }
    }
    assert(lowercased(trimmed(d)) == d);
    law_domain_of_lowered_idempotent(lowercased(trimmed(input)));
}

// ------------------------------------------------------------------
// Laws of the rule lists
// ------------------------------------------------------------------

/// Adding the same domain input a second time is refused as a duplicate,
/// and changes nothing.
pub proof fn law_add_domain_twice(r: RulesView, input: Seq<char>)
    requires
        add_domain_spec(r, input).1 is Ok,
    ensures
        ({
            let r1 = add_domain_spec(r, input).0;
            let d = add_domain_spec(r, input).1->Ok_0;
            add_domain_spec(r1, input) == (r1, Err::<Seq<char>, Seq<char>>(msg_domain_duplicate(d)))
        }),
{
    let d = add_domain_spec(r, input).1->Ok_0;
    let r1 = add_domain_spec(r, input).0;
    assert(r1.domains[r1.domains.len() - 1] == d);
}

/// Removing the domain that an add answered restores the rules as they
/// were before the add.
pub proof fn law_remove_domain_undoes_add(r: RulesView, input: Seq<char>)
    requires
        add_domain_spec(r, input).1 is Ok,
    ensures
        ({
            let r1 = add_domain_spec(r, input).0;
            let d = add_domain_spec(r, input).1->Ok_0;
            with_domains(r1, r1.domains.filter(not_text(d))) == r
        }),
{
    let d = add_domain_spec(r, input).1->Ok_0;
    assert forall|i: int| 0 <= i < r.domains.len() implies not_text(d)(#[trigger] r.domains[i]) by {
        assert(r.domains.contains(r.domains[i]));
    }
    lemma_filter_all(r.domains, not_text(d));
    r.domains.lemma_filter_push(d, not_text(d));
}

/// Adding the same geo rule input a second time is refused as a duplicate,
/// and changes nothing.
pub proof fn law_add_geo_rule_twice(r: RulesView, input: Seq<char>)
    requires
        add_geo_rule_spec(r, input).1 is Ok,
    ensures
        ({
            let r1 = add_geo_rule_spec(r, input).0;
            let g = add_geo_rule_spec(r, input).1->Ok_0;
            add_geo_rule_spec(r1, input) == (r1, Err::<Seq<char>, Seq<char>>(msg_geo_rule_duplicate(g)))
        }),
{
    let g = add_geo_rule_spec(r, input).1->Ok_0;
    let r1 = add_geo_rule_spec(r, input).0;
    assert(r1.geo_rules[r1.geo_rules.len() - 1] == g);
}

/// Removing the geo rule that an add answered restores the rules as they
/// were before the add.
pub proof fn law_remove_geo_rule_undoes_add(r: RulesView, input: Seq<char>)
    requires
        add_geo_rule_spec(r, input).1 is Ok,
    ensures
        ({
            let r1 = add_geo_rule_spec(r, input).0;
            let g = add_geo_rule_spec(r, input).1->Ok_0;
            with_geo_rules(r1, r1.geo_rules.filter(not_text(g))) == r
        }),
{
    let g = add_geo_rule_spec(r, input).1->Ok_0;
    assert forall|i: int| 0 <= i < r.geo_rules.len() implies not_text(g)(#[trigger] r.geo_rules[i]) by {
        assert(r.geo_rules.contains(r.geo_rules[i]));
    }
    lemma_filter_all(r.geo_rules, not_text(g));
    r.geo_rules.lemma_filter_push(g, not_text(g));
}

/// Adding the same process input a second time is refused as a duplicate,
/// and changes nothing.
pub proof fn law_add_process_twice(r: RulesView, input: Seq<char>)
    requires
        add_process_spec(r, input).1 is Ok,
    ensures
        ({
            let r1 = add_process_spec(r, input).0;
            let n = add_process_spec(r, input).1->Ok_0;
            add_process_spec(r1, input) == (r1, Err::<Seq<char>, Seq<char>>(msg_process_duplicate(n)))
        }),
{
    let n = add_process_spec(r, input).1->Ok_0;
    let r1 = add_process_spec(r, input).0;
    let k = r1.processes.len() - 1;
    assert(r1.processes[k] == n);
    assert(eq_ignore_ascii_case_spec(r1.processes[k], n));
    assert(has_ci_match(r1.processes, n));
}

/// Removing the process name that an add answered restores the rules as
/// they were before the add.
pub proof fn law_remove_process_undoes_add(r: RulesView, input: Seq<char>)
    requires
        add_process_spec(r, input).1 is Ok,
    ensures
        ({
            let r1 = add_process_spec(r, input).0;
            let n = add_process_spec(r, input).1->Ok_0;
            with_processes(r1, r1.processes.filter(not_ci_text(n))) == r
        }),
{
    let n = add_process_spec(r, input).1->Ok_0;
    assert forall|i: int| 0 <= i < r.processes.len() implies not_ci_text(n)(#[trigger] r.processes[i]) by {
        if eq_ignore_ascii_case_spec(r.processes[i], n) {
            assert(has_ci_match(r.processes, n));
        }
    }
    lemma_filter_all(r.processes, not_ci_text(n));
    r.processes.lemma_filter_push(n, not_ci_text(n));
}

proof fn lemma_push_fresh(s: Seq<Seq<char>>, x: Seq<char>, rel: spec_fn(Seq<char>, Seq<char>) -> bool)
    requires
        pairwise(s, rel),
        forall|i: int| 0 <= i < s.len() ==> rel(#[trigger] s[i], x),
    ensures
        pairwise(s.push(x), rel),
{
    assert forall|i: int, j: int| 0 <= i < j < s.push(x).len() implies #[trigger] rel(s.push(x)[i], s.push(x)[j]) by {
        assert(s.push(x)[i] == s[i]);
        if j < s.len() {
            assert(s.push(x)[j] == s[j]);
        }
    }
}

/// Every operation on the rules keeps them free of repeated entries: no
/// domain or geo rule twice, no two process names equal ignoring ASCII case.
pub proof fn law_operations_keep_rules_distinct(r: RulesView, input: Seq<char>, mode: RoutingMode)
    requires
        rules_distinct(r),
    ensures
        rules_distinct(with_mode(r, mode)),
        rules_distinct(add_domain_spec(r, input).0),
        rules_distinct(with_domains(r, r.domains.filter(not_text(input)))),
        rules_distinct(add_geo_rule_spec(r, input).0),
        rules_distinct(with_geo_rules(r, r.geo_rules.filter(not_text(input)))),
        rules_distinct(add_process_spec(r, input).0),
        rules_distinct(with_processes(r, r.processes.filter(not_ci_text(input)))),
{
    lemma_filter_pairwise(r.domains, not_text(input), differ());
    lemma_filter_pairwise(r.geo_rules, not_text(input), differ());
    lemma_filter_pairwise(r.processes, not_ci_text(input), differ_ignoring_case());
    if add_domain_spec(r, input).1 is Ok {
        let d = add_domain_spec(r, input).1->Ok_0;
        assert forall|i: int| 0 <= i < r.domains.len() implies differ()(#[trigger] r.domains[i], d) by {
            assert(r.domains.contains(r.domains[i]));
        }
        lemma_push_fresh(r.domains, d, differ());
    }
    if add_geo_rule_spec(r, input).1 is Ok {
        let g = add_geo_rule_spec(r, input).1->Ok_0;
        assert forall|i: int| 0 <= i < r.geo_rules.len() implies differ()(#[trigger] r.geo_rules[i], g) by {
            assert(r.geo_rules.contains(r.geo_rules[i]));
        }
        lemma_push_fresh(r.geo_rules, g, differ());
    }
    if add_process_spec(r, input).1 is Ok {
        let n = add_process_spec(r, input).1->Ok_0;
        assert forall|i: int| 0 <= i < r.processes.len() implies differ_ignoring_case()(#[trigger] r.processes[i], n) by {
            if eq_ignore_ascii_case_spec(r.processes[i], n) {
                assert(has_ci_match(r.processes, n));
            }
        }
        lemma_push_fresh(r.processes, n, differ_ignoring_case());
    }
}


/// Removing a geo rule keeps every stored geo rule well formed and free of
/// ASCII capitals (adding one keeps them so too: see the `ensures` of
/// `RoutingRules::add_geo_rule`).
pub proof fn law_remove_geo_rule_keeps_rules_lower(gs: Seq<Seq<char>>, rule: Seq<char>)
    requires
        geo_rules_kept_lower(gs),
    ensures
        geo_rules_kept_lower(gs.filter(not_text(rule))),
{
    let f = gs.filter(not_text(rule));
    assert forall|i: int| 0 <= i < f.len() implies crate::routing::is_valid_geo_rule(#[trigger] f[i]) && no_ascii_upper(f[i]) by {
        assert(f.contains(f[i]));
        gs.lemma_filter_contains_rev(not_text(rule), f[i]);
        let k = choose|k: int| 0 <= k < gs.len() && gs[k] == f[i];
        assert(crate::routing::is_valid_geo_rule(gs[k]) && no_ascii_upper(gs[k]));
    }
}


// ------------------------------------------------------------------
// Trimming and case
// ------------------------------------------------------------------

proof fn lemma_first_index_after_prefix(a: Seq<char>, b: Seq<char>, p: spec_fn(char) -> bool)
    requires
        forall|i: int| 0 <= i < a.len() ==> !p(#[trigger] a[i]),
    ensures
        first_index(a + b, p) == a.len() + first_index(b, p),
{
    lemma_first_index_bound(b, p);
    let k: int = a.len() + first_index(b, p) as int;
    assert forall|j: int| 0 <= j < k implies !p(#[trigger] (a + b)[j]) by {
        if j < a.len() {
            assert((a + b)[j] == a[j]);
        } else {
            assert((a + b)[j] == b[j - a.len()]);
        }
    }
    if k < (a + b).len() {
        assert((a + b)[k] == b[first_index(b, p) as int]);
    }
    lemma_first_index(a + b, p, k);
}

proof fn lemma_first_index_before_suffix(a: Seq<char>, b: Seq<char>, p: spec_fn(char) -> bool)
    requires
        first_index(a, p) < a.len(),
    ensures
        first_index(a + b, p) == first_index(a, p),
{
    lemma_first_index_bound(a, p);
    let k = first_index(a, p) as int;
    assert forall|j: int| 0 <= j < k implies !p(#[trigger] (a + b)[j]) by {
        assert((a + b)[j] == a[j]);
    }
    assert((a + b)[k] == a[k]);
    lemma_first_index(a + b, p, k);
}

proof fn lemma_trim_end_bounds(s: Seq<char>)
    ensures
        trim_end_len(s) <= s.len(),
        forall|k: int| 0 <= k < s.len() && !is_unicode_whitespace(#[trigger] s[k]) ==> k < trim_end_len(s),
        forall|k: int| trim_end_len(s) <= k < s.len() ==> is_unicode_whitespace(#[trigger] s[k]),
    decreases s.len(),
{
    if s.len() > 0 && is_unicode_whitespace(s.last()) {
        let init = s.drop_last();
        lemma_trim_end_bounds(init);
        assert forall|k: int| 0 <= k < s.len() && !is_unicode_whitespace(#[trigger] s[k]) implies k < trim_end_len(s) by {
            assert(k < init.len());
            assert(init[k] == s[k]);
        }
        assert forall|k: int| trim_end_len(s) <= k < s.len() implies is_unicode_whitespace(#[trigger] s[k]) by {
            if k < init.len() {
                assert(init[k] == s[k]);
            }
        }
    }
}

proof fn lemma_trim_end_append_whitespace(x: Seq<char>, post: Seq<char>)
    requires
        forall|i: int| 0 <= i < post.len() ==> is_unicode_whitespace(#[trigger] post[i]),
    ensures
        trim_end_len(x + post) == trim_end_len(x),
    decreases post.len(),
{
    if post.len() == 0 {
        assert(x + post =~= x);
    } else {
        let init = post.drop_last();
        assert forall|i: int| 0 <= i < init.len() implies is_unicode_whitespace(#[trigger] init[i]) by {
            assert(init[i] == post[i]);
        }
        lemma_trim_end_append_whitespace(x, init);
        assert((x + post).drop_last() =~= x + init);
        assert((x + post).last() == post.last());
    }
}

proof fn lemma_trim_end_prepend_whitespace(pre: Seq<char>, y: Seq<char>)
    requires
        forall|i: int| 0 <= i < pre.len() ==> is_unicode_whitespace(#[trigger] pre[i]),
    ensures
        trim_end_len(pre + y) == (if trim_end_len(y) > 0 { pre.len() + trim_end_len(y) } else { 0 }),
    decreases y.len(),
{
    if y.len() == 0 {
        assert(pre + y =~= pre);
        lemma_trim_end_bounds(pre);
        if trim_end_len(pre) > 0 {
            let k = trim_end_len(pre) - 1;
            assert(is_unicode_whitespace(pre[k]));
            lemma_trim_end_all_whitespace(pre);
        }
    } else {
        let init = y.drop_last();
        lemma_trim_end_prepend_whitespace(pre, init);
        assert((pre + y).drop_last() =~= pre + init);
        assert((pre + y).last() == y.last());
    }
}

proof fn lemma_trim_end_all_whitespace(s: Seq<char>)
    requires
        forall|i: int| 0 <= i < s.len() ==> is_unicode_whitespace(#[trigger] s[i]),
    ensures
        trim_end_len(s) == 0,
    decreases s.len(),
{
    if s.len() > 0 {
        let init = s.drop_last();
        assert forall|i: int| 0 <= i < init.len() implies is_unicode_whitespace(#[trigger] init[i]) by {
            assert(init[i] == s[i]);
        }
        lemma_trim_end_all_whitespace(init);
    }
}

/// Surrounding whitespace never changes what an input trims to.
proof fn lemma_trimmed_ignores_outer_whitespace(x: Seq<char>, pre: Seq<char>, post: Seq<char>)
    requires
        forall|i: int| 0 <= i < pre.len() ==> is_unicode_whitespace(#[trigger] pre[i]),
        forall|i: int| 0 <= i < post.len() ==> is_unicode_whitespace(#[trigger] post[i]),
    ensures
        trimmed(pre + x + post) == trimmed(x),
{
    let nw = not_whitespace();
    let xp = x + post;
    assert(pre + x + post =~= pre + xp);
    assert forall|i: int| 0 <= i < pre.len() implies !nw(#[trigger] pre[i]) by {}
    lemma_first_index_after_prefix(pre, xp, nw);
    lemma_trim_end_append_whitespace(x, post);
    lemma_trim_end_prepend_whitespace(pre, xp);
    lemma_first_index_bound(x, nw);
    lemma_trim_end_bounds(x);
    let sx = first_index(x, nw);
    let ex = trim_end_len(x);
    if sx < x.len() {
        lemma_first_index_before_suffix(x, post, nw);
        assert(!is_unicode_whitespace(x[sx as int]));
        assert(sx < ex);
        assert((pre + xp).subrange(pre.len() + sx as int, pre.len() + ex as int) =~= x.subrange(sx as int, ex as int));
    } else {
        lemma_trim_end_all_whitespace(x);
    }
}

/// Normalisation ignores whitespace around the input: adding any Unicode
/// whitespace before or after it changes neither the domain nor the error.
pub proof fn law_normalize_ignores_outer_whitespace(x: Seq<char>, pre: Seq<char>, post: Seq<char>)
    requires
        forall|i: int| 0 <= i < pre.len() ==> is_unicode_whitespace(#[trigger] pre[i]),
        forall|i: int| 0 <= i < post.len() ==> is_unicode_whitespace(#[trigger] post[i]),
    ensures
        normalize_domain_spec(pre + x + post) == normalize_domain_spec(x),
{
    lemma_trimmed_ignores_outer_whitespace(x, pre, post);
}

proof fn lemma_first_index_same_pattern(x: Seq<char>, y: Seq<char>, p: spec_fn(char) -> bool)
    requires
        x.len() == y.len(),
        forall|i: int| 0 <= i < x.len() ==> p(#[trigger] x[i]) == p(y[i]),
    ensures
        first_index(x, p) == first_index(y, p),
{
    lemma_first_index_bound(x, p);
    let k = first_index(x, p) as int;
    assert forall|j: int| 0 <= j < k implies !p(#[trigger] y[j]) by {
        assert(!p(x[j]));
    }
    if k < y.len() {
        assert(p(x[k]));
    }
    lemma_first_index(y, p, k);
}

proof fn lemma_trim_end_same_pattern(x: Seq<char>, y: Seq<char>)
    requires
        x.len() == y.len(),
        forall|i: int| 0 <= i < x.len() ==> is_unicode_whitespace(#[trigger] x[i]) == is_unicode_whitespace(y[i]),
    ensures
        trim_end_len(x) == trim_end_len(y),
    decreases x.len(),
{
    if x.len() > 0 {
        let xi = x.drop_last();
        let yi = y.drop_last();
        assert forall|i: int| 0 <= i < xi.len() implies is_unicode_whitespace(#[trigger] xi[i]) == is_unicode_whitespace(yi[i]) by {
            assert(xi[i] == x[i] && yi[i] == y[i]);
        }
        lemma_trim_end_same_pattern(xi, yi);
        assert(is_unicode_whitespace(x.last()) == is_unicode_whitespace(y.last()));
    }
}

/// Two characters that lower to the same one are both whitespace or both not.
proof fn lemma_same_lower_same_whitespace(a: char, b: char)
    requires
        crate::text::ascii_lower(a) == crate::text::ascii_lower(b),
    ensures
        is_unicode_whitespace(a) == is_unicode_whitespace(b),
{
    if crate::text::is_ascii_upper(a) {
        assert('a' <= crate::text::ascii_lower(a) <= 'z');
    }
    if crate::text::is_ascii_upper(b) {
        assert('a' <= crate::text::ascii_lower(b) <= 'z');
    }
}

/// ASCII letter case never matters: two ASCII inputs that are equal
/// ignoring ASCII case normalise to the same domain, or fail alike.
pub proof fn law_normalize_ignores_ascii_case(x: Seq<char>, y: Seq<char>)
    requires
        vstd::utf8::is_ascii_chars(x),
        vstd::utf8::is_ascii_chars(y),
        eq_ignore_ascii_case_spec(x, y),
    ensures
        normalize_domain_spec(x) == normalize_domain_spec(y),
{
    assert(x.len() == ascii_lower_seq(x).len());
    assert(y.len() == ascii_lower_seq(y).len());
    assert forall|i: int| 0 <= i < x.len() implies is_unicode_whitespace(#[trigger] x[i]) == is_unicode_whitespace(y[i]) by {
        assert(ascii_lower_seq(x)[i] == ascii_lower_seq(y)[i]);
        lemma_same_lower_same_whitespace(x[i], y[i]);
    }
    assert forall|i: int| 0 <= i < x.len() implies not_whitespace()(#[trigger] x[i]) == not_whitespace()(y[i]) by {
        assert(is_unicode_whitespace(x[i]) == is_unicode_whitespace(y[i]));
    }
    lemma_first_index_same_pattern(x, y, not_whitespace());
    lemma_trim_end_same_pattern(x, y);
    lemma_trim_end_bounds(x);
    let tx = trimmed(x);
    let ty = trimmed(y);
    assert(tx.len() == ty.len());
    assert(vstd::utf8::is_ascii_chars(tx)) by {
        assert forall|i: int| 0 <= i < tx.len() implies '\0' <= #[trigger] tx[i] <= '\u{7f}' by {
            assert(tx[i] == x[i + first_index(x, not_whitespace())]);
        }
    }
    assert(vstd::utf8::is_ascii_chars(ty)) by {
        assert forall|i: int| 0 <= i < ty.len() implies '\0' <= #[trigger] ty[i] <= '\u{7f}' by {
            assert(ty[i] == y[i + first_index(y, not_whitespace())]);
        }
    }
    assert(ascii_lower_seq(tx) =~= ascii_lower_seq(ty)) by {
        assert forall|i: int| 0 <= i < tx.len() implies ascii_lower_seq(tx)[i] == ascii_lower_seq(ty)[i] by {
            let k = i + first_index(x, not_whitespace());
            assert(tx[i] == x[k] && ty[i] == y[k]);
            assert(ascii_lower_seq(x)[k] == ascii_lower_seq(y)[k]);
        }
    }
    assert(lowercased(tx) == lowercased(ty));
}


/// A text that begins and ends with a non-whitespace character is its own
/// trimmed form.
proof fn lemma_trimmed_unchanged(s: Seq<char>)
    requires
        s.len() > 0,
        !is_unicode_whitespace(s[0]),
        !is_unicode_whitespace(s.last()),
    ensures
        trimmed(s) == s,
{
    assert(not_whitespace()(s[0]));
    lemma_first_index(s, not_whitespace(), 0);
    assert(trim_end_len(s) == s.len());
    assert(s.subrange(0, s.len() as int) =~= s);
}

/// Adding a geo rule: the input, with any surrounding whitespace and in any
/// ASCII letter case, names the lower-cased rule `g`. It is added at the end
/// and answered exactly when `g` is `russia_pack`, `telegram_combo` or
/// `discord_combo`, or begins with `geosite:` or `geoip:`, and is not yet
/// listed; otherwise the rules stay as they are and an error is answered.
pub proof fn law_geo_rule_accepted_when(r: RulesView, x: Seq<char>, pre: Seq<char>, post: Seq<char>)
    requires
        vstd::utf8::is_ascii_chars(x),
        x.len() > 0,
        forall|i: int| 0 <= i < x.len() ==> !is_unicode_whitespace(#[trigger] x[i]),
        forall|i: int| 0 <= i < pre.len() ==> is_unicode_whitespace(#[trigger] pre[i]),
        forall|i: int| 0 <= i < post.len() ==> is_unicode_whitespace(#[trigger] post[i]),
    ensures
        ({
            let g = ascii_lower_seq(x);
            let res = add_geo_rule_spec(r, pre + x + post);
            let known = g == "russia_pack"@ || g == "telegram_combo"@ || g == "discord_combo"@
                || starts_with(g, "geosite:"@) || starts_with(g, "geoip:"@);
            &&& known && !r.geo_rules.contains(g) ==> {
                &&& res.1 == Ok::<Seq<char>, Seq<char>>(g)
                &&& res.0.geo_rules == r.geo_rules.push(g)
                &&& res.0.mode == r.mode
                &&& res.0.domains == r.domains
                &&& res.0.processes == r.processes
            }
            &&& !(known && !r.geo_rules.contains(g)) ==> res.1 is Err && res.0 == r
        }),
{
    lemma_trimmed_ignores_outer_whitespace(x, pre, post);
    lemma_trimmed_unchanged(x);
    assert(lowercased(trimmed(pre + x + post)) == ascii_lower_seq(x));
}


proof fn lemma_filter_members(s: Seq<Seq<char>>, p: spec_fn(Seq<char>) -> bool)
    ensures
        forall|y: Seq<char>| #[trigger] s.filter(p).contains(y) <==> (s.contains(y) && p(y)),
{
    assert forall|y: Seq<char>| #[trigger] s.filter(p).contains(y) <==> (s.contains(y) && p(y)) by {
        if s.filter(p).contains(y) {
            s.lemma_filter_contains_rev(p, y);
        }
        if s.contains(y) && p(y) {
            let k = choose|k: int| 0 <= k < s.len() && s[k] == y;
            s.lemma_filter_contains(p, k);
        }
    }
}

/// Removing an entry keeps exactly the other entries: a domain or geo rule
/// other than the one named stays, the named one goes; a process stays
/// exactly when its name differs from the one named ignoring ASCII case.
pub proof fn law_remove_keeps_the_others(r: RulesView, x: Seq<char>)
    ensures
        forall|y: Seq<char>| #[trigger] r.domains.filter(not_text(x)).contains(y) <==> (r.domains.contains(y) && y != x),
        forall|y: Seq<char>| #[trigger] r.geo_rules.filter(not_text(x)).contains(y) <==> (r.geo_rules.contains(y) && y != x),
        forall|y: Seq<char>| #[trigger] r.processes.filter(not_ci_text(x)).contains(y) <==> (
            r.processes.contains(y) && ascii_lower_seq(y) != ascii_lower_seq(x)),
{
    lemma_filter_members(r.domains, not_text(x));
    lemma_filter_members(r.geo_rules, not_text(x));
    lemma_filter_members(r.processes, not_ci_text(x));
}


// ------------------------------------------------------------------
// Schemes, `www.`, paths and ports
// ------------------------------------------------------------------

/// A text of plain domain characters with a dot, followed by anything,
/// does not begin with a prefix whose `:` at `q` is preceded by no dot.
proof fn lemma_no_colon_prefix(x: Seq<char>, y: Seq<char>, p: Seq<char>, q: int)
    requires
        x.contains('.'),
        forall|i: int| 0 <= i < x.len() ==> plain_domain_char(#[trigger] x[i]),
        0 <= q < p.len(),
        p[q] == ':',
        forall|k: int| 0 <= k < q ==> p[k] != '.',
    ensures
        !starts_with(x + y, p),
{
    if starts_with(x + y, p) {
        let d = choose|d: int| 0 <= d < x.len() && x[d] == '.';
        if d < q {
            assert((x + y).subrange(0, p.len() as int)[d] == (x + y)[d]);
            assert((x + y)[d] == x[d]);
        } else {
            assert((x + y).subrange(0, p.len() as int)[q] == (x + y)[q]);
            assert((x + y)[q] == x[q]);
            assert(plain_domain_char(x[q]));
        }
    }
}

/// No scheme prefix begins a text that starts with a plain domain (with a
/// dot) or with `www.`.
proof fn lemma_no_scheme(x: Seq<char>, y: Seq<char>)
    requires
        x.contains('.'),
        forall|i: int| 0 <= i < x.len() ==> plain_domain_char(#[trigger] x[i]),
    ensures
        !starts_with(x + y, "https://"@),
        !starts_with(x + y, "http://"@),
        !starts_with(x + y, "domain:"@),
        !starts_with(x + y, "full:"@),
        !starts_with("www."@ + x + y, "https://"@),
        !starts_with("www."@ + x + y, "http://"@),
        !starts_with("www."@ + x + y, "domain:"@),
        !starts_with("www."@ + x + y, "full:"@),
{
    reveal_strlit("https://");
    reveal_strlit("http://");
    reveal_strlit("domain:");
    reveal_strlit("full:");
    reveal_strlit("www.");
    lemma_no_colon_prefix(x, y, "https://"@, 5);
    lemma_no_colon_prefix(x, y, "http://"@, 4);
    lemma_no_colon_prefix(x, y, "domain:"@, 6);
    lemma_no_colon_prefix(x, y, "full:"@, 4);
    let w = "www."@ + x + y;
    assert(w[0] == 'w');
    if starts_with(w, "https://"@) { assert(w.subrange(0, 8)[0] == w[0]); }
    if starts_with(w, "http://"@) { assert(w.subrange(0, 7)[0] == w[0]); }
    if starts_with(w, "domain:"@) { assert(w.subrange(0, 7)[0] == w[0]); }
    if starts_with(w, "full:"@) { assert(w.subrange(0, 5)[0] == w[0]); }
}

/// A plain domain followed by a tail that starts with `/`, `?`, `#` or `:`
/// has that domain as its host part.
proof fn lemma_host_of_domain_and_tail(d: Seq<char>, tail: Seq<char>)
    requires
        forall|i: int| 0 <= i < d.len() ==> plain_domain_char(#[trigger] d[i]),
        tail.len() > 0 ==> (tail[0] == '/' || tail[0] == '?' || tail[0] == '#' || tail[0] == ':'),
    ensures
        ({
            let a = d + tail;
            let b = a.take(first_index(a, url_delim()) as int);
            b.take(first_index(b, colon()) as int) == d
        }),
{
    let a = d + tail;
    lemma_first_index_bound(a, url_delim());
    let fi = first_index(a, url_delim()) as int;
    if fi < d.len() {
        assert(a[fi] == d[fi]);
        assert(plain_domain_char(d[fi]));
    }
    let b = a.take(fi);
    lemma_first_index_bound(b, colon());
    let ci = first_index(b, colon()) as int;
    if ci < d.len() {
        assert(b[ci] == d[ci]);
        assert(plain_domain_char(d[ci]));
    }
    if fi > d.len() {
        assert(a[d.len() as int] == tail[0]);
        assert(!url_delim()(a[d.len() as int]));
        assert(b[d.len() as int] == ':');
        assert(colon()(b[d.len() as int]));
    }
    assert(b.take(ci) =~= d);
}

proof fn lemma_lower_concat(a: Seq<char>, b: Seq<char>)
    ensures
        ascii_lower_seq(a + b) == ascii_lower_seq(a) + ascii_lower_seq(b),
{
    assert(ascii_lower_seq(a + b) =~= ascii_lower_seq(a) + ascii_lower_seq(b));
}

/// Lower-case ASCII text is left as it is by lower-casing.
proof fn lemma_lower_fixed(a: Seq<char>)
    requires
        forall|i: int| 0 <= i < a.len() ==> !crate::text::is_ascii_upper(#[trigger] a[i]),
    ensures
        ascii_lower_seq(a) == a,
{
    assert(ascii_lower_seq(a) =~= a);
}

/// The lowered input: the ASCII input has no outer whitespace, and the
/// scheme and `www.` are already lower-case.
proof fn lemma_lowered_input(scheme: Seq<char>, w: Seq<char>, s: Seq<char>, tail: Seq<char>)
    requires
        scheme == "https://"@ || scheme == "http://"@ || scheme == "domain:"@ || scheme == "full:"@ || scheme.len() == 0,
        w == "www."@ || w.len() == 0,
        s.len() > 0,
        forall|i: int| 0 <= i < s.len() ==> plain_domain_char(#[trigger] s[i]),
        vstd::utf8::is_ascii_chars(tail),
        forall|i: int| 0 <= i < tail.len() ==> !is_unicode_whitespace(#[trigger] tail[i]),
    ensures
        lowercased(trimmed(scheme + w + s + tail)) == scheme + w + ascii_lower_seq(s) + ascii_lower_seq(tail),
{
    reveal_strlit("https://");
    reveal_strlit("http://");
    reveal_strlit("domain:");
    reveal_strlit("full:");
    reveal_strlit("www.");
    let input = scheme + w + s + tail;
    assert forall|i: int| 0 <= i < s.len() implies '\0' <= #[trigger] s[i] <= '\u{7f}' && !is_unicode_whitespace(s[i]) by {
        assert(plain_domain_char(s[i]));
    }
    assert(vstd::utf8::is_ascii_chars(input)) by {
        assert forall|i: int| 0 <= i < input.len() implies '\0' <= #[trigger] input[i] <= '\u{7f}' by {
            let n1 = scheme.len() as int;
            let n2 = n1 + w.len();
            let n3 = n2 + s.len();
            if i < n1 {
                assert(input[i] == scheme[i]);
            } else if i < n2 {
                assert(input[i] == w[i - n1]);
            } else if i < n3 {
                assert(input[i] == s[i - n2]);
            } else {
                assert(input[i] == tail[i - n3]);
            }
        }
    }
    assert(!is_unicode_whitespace(input[0])) by {
        if scheme.len() > 0 {
            assert(input[0] == scheme[0]);
        } else if w.len() > 0 {
            assert(input[0] == w[0]);
        } else {
            assert(input[0] == s[0]);
        }
    }
    assert(!is_unicode_whitespace(input.last())) by {
        if tail.len() > 0 {
            assert(input.last() == tail[tail.len() - 1]);
        } else {
            assert(input.last() == s[s.len() - 1]);
        }
    }
    lemma_trimmed_unchanged(input);
    lemma_lower_concat(scheme + w + s, tail);
    lemma_lower_concat(scheme + w, s);
    lemma_lower_concat(scheme, w);
    assert forall|i: int| 0 <= i < scheme.len() implies !crate::text::is_ascii_upper(#[trigger] scheme[i]) by {}
    lemma_lower_fixed(scheme);
    assert forall|i: int| 0 <= i < w.len() implies !crate::text::is_ascii_upper(#[trigger] w[i]) by {}
    lemma_lower_fixed(w);
}

/// Lower-casing keeps a plain domain plain, and keeps its dot.
proof fn lemma_lowered_plain(s: Seq<char>)
    requires
        s.contains('.'),
        forall|i: int| 0 <= i < s.len() ==> plain_domain_char(#[trigger] s[i]),
    ensures
        ascii_lower_seq(s).contains('.'),
        forall|i: int| 0 <= i < s.len() ==> plain_domain_char(#[trigger] ascii_lower_seq(s)[i]),
{
    let d = ascii_lower_seq(s);
    assert forall|i: int| 0 <= i < s.len() implies plain_domain_char(#[trigger] d[i]) by {
        assert(plain_domain_char(s[i]));
        if crate::text::is_ascii_upper(s[i]) {
            assert('a' <= d[i] <= 'z');
        }
    }
    let k = choose|k: int| 0 <= k < s.len() && s[k] == '.';
    assert(d[k] == '.');
}

/// The scheme goes first, then `www.`.
proof fn lemma_strip_prefixes(scheme: Seq<char>, w: Seq<char>, d: Seq<char>, tl: Seq<char>)
    requires
        scheme == "https://"@ || scheme == "http://"@ || scheme == "domain:"@ || scheme == "full:"@ || scheme.len() == 0,
        w == "www."@ || w.len() == 0,
        d.contains('.'),
        forall|i: int| 0 <= i < d.len() ==> plain_domain_char(#[trigger] d[i]),
        !starts_with(d, "www."@),
    ensures
        strip_one(strip_each_scheme(strip_first_scheme(scheme + w + d + tl)), "www."@) == d + tl,
{
    reveal_strlit("https://");
    reveal_strlit("http://");
    reveal_strlit("domain:");
    reveal_strlit("full:");
    reveal_strlit("www.");
    let low = scheme + w + d + tl;
    let u = w + d + tl;
    assert(low =~= scheme + u);
    lemma_no_scheme(d, tl);
    if w.len() > 0 {
        assert(u =~= "www."@ + d + tl);
    } else {
        assert(u =~= d + tl);
    }
    assert(strip_first_scheme(low) == u) by {
        if scheme.len() == 0 {
            assert(low =~= u);
        } else {
            assert(low.subrange(0, scheme.len() as int) =~= scheme);
            assert(low.skip(scheme.len() as int) =~= u);
            if scheme == "http://"@ {
                assert(low[4] == ':');
                if starts_with(low, "https://"@) {
                    assert(low.subrange(0, 8)[4] == low[4]);
                }
            }
            if scheme == "domain:"@ || scheme == "full:"@ {
                assert(low[0] == scheme[0]);
                if starts_with(low, "https://"@) { assert(low.subrange(0, 8)[0] == low[0]); }
                if starts_with(low, "http://"@) { assert(low.subrange(0, 7)[0] == low[0]); }
            }
            if scheme == "full:"@ {
                if starts_with(low, "domain:"@) { assert(low.subrange(0, 7)[0] == low[0]); }
            }
        }
    }
    assert(strip_each_scheme(u) == u);
    if w.len() > 0 {
        assert(u.subrange(0, 4) =~= "www."@);
        assert(u.skip(4) =~= d + tl);
    } else {
        let k = choose|k: int| 0 <= k < d.len() && d[k] == '.';
        if starts_with(d + tl, "www."@) {
            if d.len() >= 4 {
                assert(d.subrange(0, 4) =~= (d + tl).subrange(0, 4));
            } else {
                assert((d + tl).subrange(0, 4)[k] == d[k]);
            }
        }
    }
}

/// Normalisation strips what surrounds a domain: given a domain `s` of
/// ASCII letters, digits, `-`, `.` and `_` (with a dot), the input made of
/// one of the schemes `https://`, `http://`, `domain:`, `full:` (or none),
/// then `www.` (or not), then `s`, then a path, query, fragment or port (a
/// tail beginning with `/`, `?`, `#` or `:`, of ASCII characters without
/// whitespace) normalises to `s` lower-cased.
pub proof fn law_normalize_strips_scheme_www_path_and_port(
    scheme: Seq<char>,
    www: bool,
    s: Seq<char>,
    tail: Seq<char>,
)
    requires
        scheme == "https://"@ || scheme == "http://"@ || scheme == "domain:"@ || scheme == "full:"@ || scheme.len() == 0,
        s.contains('.'),
        forall|i: int| 0 <= i < s.len() ==> plain_domain_char(#[trigger] s[i]),
        !starts_with(ascii_lower_seq(s), "www."@),
        tail.len() > 0 ==> (tail[0] == '/' || tail[0] == '?' || tail[0] == '#' || tail[0] == ':'),
        vstd::utf8::is_ascii_chars(tail),
        forall|i: int| 0 <= i < tail.len() ==> !is_unicode_whitespace(#[trigger] tail[i]),
    ensures
        normalize_domain_spec(scheme + (if www { "www."@ } else { Seq::<char>::empty() }) + s + tail)
            == Ok::<Seq<char>, Seq<char>>(ascii_lower_seq(s)),
{
    let w = if www { "www."@ } else { Seq::<char>::empty() };
    let d = ascii_lower_seq(s);
    let tl = ascii_lower_seq(tail);
    lemma_lowered_input(scheme, w, s, tail);
    lemma_lowered_plain(s);
    assert(tl.len() == tail.len());
    if tail.len() > 0 {
        assert(tl[0] == tail[0]);
    }
    lemma_strip_prefixes(scheme, w, d, tl);
    lemma_host_of_domain_and_tail(d, tl);
    assert forall|i: int| 0 <= i < d.len() implies domain_char_ok(#[trigger] d[i]) by {
        assert(plain_domain_char(d[i]));
    }
    lemma_first_index(d, bad_domain_char(), d.len() as int);
}


/// Adding a process: the input, with any surrounding whitespace, names the
/// process `x` (kept in its own letter case). It is added at the end and
/// answered exactly when `x` ends in `.exe` in any ASCII letter case and no
/// listed process has the same name ignoring ASCII case; otherwise the
/// rules stay as they are and an error is answered.
pub proof fn law_process_accepted_when(r: RulesView, x: Seq<char>, pre: Seq<char>, post: Seq<char>)
    requires
        vstd::utf8::is_ascii_chars(x),
        x.len() > 0,
        forall|i: int| 0 <= i < x.len() ==> !is_unicode_whitespace(#[trigger] x[i]),
        forall|i: int| 0 <= i < pre.len() ==> is_unicode_whitespace(#[trigger] pre[i]),
        forall|i: int| 0 <= i < post.len() ==> is_unicode_whitespace(#[trigger] post[i]),
    ensures
        ({
            let res = add_process_spec(r, pre + x + post);
            let ok = ends_with(ascii_lower_seq(x), ".exe"@)
                && forall|j: int| 0 <= j < r.processes.len() ==> ascii_lower_seq(#[trigger] r.processes[j]) != ascii_lower_seq(x);
            &&& ok ==> {
                &&& res.1 == Ok::<Seq<char>, Seq<char>>(x)
                &&& res.0.processes == r.processes.push(x)
                &&& res.0.mode == r.mode
                &&& res.0.domains == r.domains
                &&& res.0.geo_rules == r.geo_rules
            }
            &&& !ok ==> res.1 is Err && res.0 == r
        }),
{
    lemma_trimmed_ignores_outer_whitespace(x, pre, post);
    lemma_trimmed_unchanged(x);
    assert(trimmed(pre + x + post) == x);
    assert(lowercased(x) == ascii_lower_seq(x));
    if has_ci_match(r.processes, x) {
        let j = choose|j: int| 0 <= j < r.processes.len() && eq_ignore_ascii_case_spec(#[trigger] r.processes[j], x);
        assert(ascii_lower_seq(r.processes[j]) == ascii_lower_seq(x));
    }
    if exists|j: int| 0 <= j < r.processes.len() && ascii_lower_seq(#[trigger] r.processes[j]) == ascii_lower_seq(x) {
        let j = choose|j: int| 0 <= j < r.processes.len() && ascii_lower_seq(#[trigger] r.processes[j]) == ascii_lower_seq(x);
        assert(eq_ignore_ascii_case_spec(r.processes[j], x));
        assert(has_ci_match(r.processes, x));
    }
}

/// Adding a domain answers the domain the input normalises to and appends
/// it, exactly when the input normalises to a domain not yet listed;
/// otherwise nothing changes and the answer is an error.
pub proof fn law_domain_accepted_when(r: RulesView, input: Seq<char>)
    ensures
        ({
            let res = add_domain_spec(r, input);
            let n = normalize_domain_spec(input);
            &&& (n is Ok && !r.domains.contains(n->Ok_0)) ==> {
                &&& res.1 == n
                &&& res.0.domains == r.domains.push(n->Ok_0)
                &&& res.0.mode == r.mode
                &&& res.0.geo_rules == r.geo_rules
                &&& res.0.processes == r.processes
            }
            &&& !(n is Ok && !r.domains.contains(n->Ok_0)) ==> res.1 is Err && res.0 == r
        }),
{
}

} // verus!
