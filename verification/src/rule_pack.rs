use vstd::prelude::*;
use crate::json::{
    JsonValue, JsonView, jarr, jnum, jobj, str_items, jv_array, jv_num, jv_object,
    jv_str_array, members_view, new_items, new_members, push_item, put,
};
use crate::text::{chars_of, ends_with, has_prefix, has_suffix, starts_with, string_of, trim_str, trimmed};

verus! {

broadcast use vstd::string::group_string_axioms;

// ------------------------------------------------------------------
// Lines
// ------------------------------------------------------------------

/// A line without the `\r` of a `\r\n` ending.
pub open spec fn strip_cr(l: Seq<char>) -> Seq<char> {
    if l.len() > 0 && l.last() == '\r' {
        l.drop_last()
    } else {
        l
    }
}

/// The lines of `s` after the lines `done` and the partial line `cur`,
/// as `str::lines` splits them: at each `\n` (dropping a `\r` before it),
/// with a final line only when it is non-empty.
pub open spec fn lines_from(s: Seq<char>, done: Seq<Seq<char>>, cur: Seq<char>) -> Seq<Seq<char>>
    decreases s.len(),
{
    if s.len() == 0 {
        if cur.len() > 0 {
            done.push(cur)
        } else {
            done
        }
    } else if s[0] == '\n' {
        lines_from(s.drop_first(), done.push(strip_cr(cur)), Seq::empty())
    } else {
        lines_from(s.drop_first(), done, cur.push(s[0]))
    }
}

pub open spec fn lines_of(s: Seq<char>) -> Seq<Seq<char>> {
    lines_from(s, Seq::empty(), Seq::empty())
}

pub open spec fn lines_view(r: Seq<Vec<char>>) -> Seq<Seq<char>> {
    r.map_values(|l: Vec<char>| l@)
}

/// Splits a text into lines, as `str::lines` does.
pub fn split_lines(s: &str) -> (r: Vec<Vec<char>>)
    ensures
        lines_view(r@) == lines_of(s@),
{
    let v = chars_of(s);
    let mut done: Vec<Vec<char>> = Vec::new();
    let mut cur: Vec<char> = Vec::new();
    let mut i: usize = 0;
    assert(v@.skip(0) =~= v@);
    assert(lines_view(done@) =~= Seq::<Seq<char>>::empty());
    assert(cur@ =~= Seq::<char>::empty());
    while i < v.len()
        invariant
            v@ == s@,
            i <= v.len(),
            lines_from(v@.skip(i as int), lines_view(done@), cur@) == lines_of(s@),
        decreases v.len() - i,
    {
        let ghost rest = v@.skip(i as int);
        assert(rest.drop_first() =~= v@.skip(i + 1));
        assert(rest[0] == v@[i as int]);
        if v[i] == '\n' {
            let ghost c0 = cur@;
            let ghost d0 = lines_view(done@);
            if cur.len() > 0 && cur[cur.len() - 1] == '\r' {
                cur.pop();
            }
            assert(cur@ =~= strip_cr(c0));
            done.push(cur);
            assert(lines_view(done@) =~= d0.push(strip_cr(c0)));
            cur = Vec::new();
            assert(cur@ =~= Seq::<char>::empty());
        } else {
            cur.push(v[i]);
        }
        i = i + 1;
    }
    assert(v@.skip(i as int) =~= Seq::<char>::empty());
    if cur.len() > 0 {
        let ghost d0 = lines_view(done@);
        let ghost c0 = cur@;
        done.push(cur);
        assert(lines_view(done@) =~= d0.push(c0));
    }
    done
}

// ------------------------------------------------------------------
// Text order
// ------------------------------------------------------------------

/// `a` comes before `b` in code-point order (the order of `String`'s `Ord`,
/// which compares UTF-8 bytes).
pub open spec fn text_less(a: Seq<char>, b: Seq<char>) -> bool
    decreases a.len(),
{
    if a.len() == 0 {
        b.len() > 0
    } else if b.len() == 0 {
        false
    } else if a[0] != b[0] {
        a[0] < b[0]
    } else {
        text_less(a.drop_first(), b.drop_first())
    }
}

pub proof fn lemma_text_less_irreflexive(a: Seq<char>)
    ensures
        !text_less(a, a),
    decreases a.len(),
{
    if a.len() > 0 {
        lemma_text_less_irreflexive(a.drop_first());
    }
}

pub proof fn lemma_text_less_transitive(a: Seq<char>, b: Seq<char>, c: Seq<char>)
    requires
        text_less(a, b),
        text_less(b, c),
    ensures
        text_less(a, c),
    decreases a.len(),
{
    if a.len() > 0 && b.len() > 0 && c.len() > 0 && a[0] == b[0] && b[0] == c[0] {
        lemma_text_less_transitive(a.drop_first(), b.drop_first(), c.drop_first());
    }
}

pub proof fn lemma_text_less_total(a: Seq<char>, b: Seq<char>)
    requires
        a != b,
    ensures
        text_less(a, b) || text_less(b, a),
    decreases a.len(),
{
    if a.len() > 0 && b.len() > 0 && a[0] == b[0] {
        if a.drop_first() == b.drop_first() {
            assert(a =~= seq![a[0]] + a.drop_first());
            assert(b =~= seq![b[0]] + b.drop_first());
        }
        lemma_text_less_total(a.drop_first(), b.drop_first());
    } else if a.len() == 0 && b.len() == 0 {
        assert(a =~= b);
    }
}

pub proof fn lemma_text_less_asymmetric(a: Seq<char>, b: Seq<char>)
    requires
        text_less(a, b),
    ensures
        !text_less(b, a),
{
    if text_less(b, a) {
        lemma_text_less_transitive(a, b, a);
        lemma_text_less_irreflexive(a);
    }
}

/// Whether `a` comes before `b` in code-point order.
pub fn text_before(a: &Vec<char>, b: &Vec<char>) -> (r: bool)
    ensures
        r == text_less(a@, b@),
{
    let mut i: usize = 0;
    assert(a@.skip(0) =~= a@);
    assert(b@.skip(0) =~= b@);
    while i < a.len() && i < b.len() && a[i] == b[i]
        invariant
            i <= a.len(),
            i <= b.len(),
            text_less(a@, b@) == text_less(a@.skip(i as int), b@.skip(i as int)),
        decreases a.len() - i,
    {
        assert(a@.skip(i as int).drop_first() =~= a@.skip(i + 1));
        assert(b@.skip(i as int).drop_first() =~= b@.skip(i + 1));
        i = i + 1;
    }
    if i == a.len() {
        i < b.len()
    } else if i == b.len() {
        false
    } else {
        assert(a@.skip(i as int)[0] == a@[i as int]);
        assert(b@.skip(i as int)[0] == b@[i as int]);
        a[i] < b[i]
    }
}

fn same_chars(a: &Vec<char>, b: &Vec<char>) -> (r: bool)
    ensures
        r == (a@ == b@),
{
    if a.len() != b.len() {
        return false;
    }
    let mut i: usize = 0;
    while i < a.len()
        invariant
            a.len() == b.len(),
            i <= a.len(),
            forall|j: int| 0 <= j < i ==> a@[j] == b@[j],
        decreases a.len() - i,
    {
        if a[i] != b[i] {
            return false;
        }
        i = i + 1;
    }
    assert(a@ =~= b@);
    true
}

/// Each entry comes before every later one.
pub open spec fn strictly_sorted(s: Seq<Seq<char>>) -> bool {
    forall|i: int, j: int| 0 <= i < j < s.len() ==> text_less(#[trigger] s[i], #[trigger] s[j])
}

/// Inserts `x` into a strictly sorted list unless it is already there.
fn insert_sorted(list: &mut Vec<Vec<char>>, x: Vec<char>)
    requires
        strictly_sorted(lines_view(old(list)@)),
    ensures
        strictly_sorted(lines_view(final(list)@)),
        forall|y: Seq<char>| #[trigger] lines_view(final(list)@).contains(y) <==> (lines_view(old(list)@).contains(y) || y == x@),
{
    let ghost old_view = lines_view(list@);
    let mut p: usize = 0;
    while p < list.len() && text_before(&list[p], &x)
        invariant
            p <= list.len(),
            lines_view(list@) == old_view,
            forall|j: int| 0 <= j < p ==> text_less(#[trigger] old_view[j], x@),
        decreases list.len() - p,
    {
        p = p + 1;
    }
    if p < list.len() && same_chars(&list[p], &x) {
        assert(old_view[p as int] == x@);
        return;
    }
    if p < list.len() {
        proof {
            lemma_text_less_total(old_view[p as int], x@);
        }
        assert(text_less(x@, old_view[p as int]));
    }
    let ghost xv = x@;
    list.insert(p, x);
    let ghost nv = lines_view(list@);
    assert(nv =~= old_view.insert(p as int, xv));
    assert forall|i: int, j: int| 0 <= i < j < nv.len() implies text_less(#[trigger] nv[i], #[trigger] nv[j]) by {
        if j < p {
        } else if j == p {
            assert(nv[i] == old_view[i]);
        } else if i < p {
            assert(nv[j] == old_view[j - 1]);
            if i < p {
                if (p as int) < j - 1 {
                    lemma_text_less_transitive(old_view[i], xv, old_view[p as int]);
                    lemma_text_less_transitive(old_view[i], old_view[p as int], old_view[j - 1]);
                } else {
                    lemma_text_less_transitive(old_view[i], xv, old_view[j - 1]);
                }
            }
        } else if i == p {
            assert(nv[j] == old_view[j - 1]);
            if (p as int) < j - 1 {
                lemma_text_less_transitive(xv, old_view[p as int], old_view[j - 1]);
            }
        } else {
            assert(nv[i] == old_view[i - 1] && nv[j] == old_view[j - 1]);
        }
    }
    assert forall|y: Seq<char>| #[trigger] nv.contains(y) <==> (old_view.contains(y) || y == xv) by {
        if nv.contains(y) {
            let k = choose|k: int| 0 <= k < nv.len() && nv[k] == y;
            if k < p {
                assert(old_view[k] == y);
            } else if k > p {
                assert(old_view[k - 1] == y);
            }
        }
        if old_view.contains(y) {
            let k = choose|k: int| 0 <= k < old_view.len() && old_view[k] == y;
            if k < p {
                assert(nv[k] == y);
            } else {
                assert(nv[k + 1] == y);
            }
        }
        if y == xv {
            assert(nv[p as int] == y);
        }
    }
}

// ------------------------------------------------------------------
// Merging rule lists
// ------------------------------------------------------------------

/// A trimmed line that names a domain: not empty, not a `#` comment, not
/// under `.ua`.
pub open spec fn is_list_entry(t: Seq<char>) -> bool {
    t.len() > 0 && !starts_with(t, "#"@) && !ends_with(t, ".ua"@)
}

/// `y` is the trimmed form of one of the lines, and names a domain.
pub open spec fn listed_in(lines: Seq<Seq<char>>, y: Seq<char>) -> bool {
    is_list_entry(y) && exists|i: int| 0 <= i < lines.len() && trimmed(#[trigger] lines[i]) == y
}

fn add_entries(list: &mut Vec<Vec<char>>, lines: &Vec<Vec<char>>, ghost_prefix: Ghost<Seq<Seq<char>>>)
    requires
        strictly_sorted(lines_view(old(list)@)),
        forall|y: Seq<char>| #[trigger] lines_view(old(list)@).contains(y) <==> listed_in(ghost_prefix@, y),
    ensures
        strictly_sorted(lines_view(final(list)@)),
        forall|y: Seq<char>| #[trigger] lines_view(final(list)@).contains(y) <==> listed_in(ghost_prefix@ + lines_view(lines@), y),
{
    let ghost pre = ghost_prefix@;
    let mut i: usize = 0;
    while i < lines.len()
        invariant
            i <= lines.len(),
            strictly_sorted(lines_view(list@)),
            forall|y: Seq<char>| #[trigger] lines_view(list@).contains(y) <==> listed_in(pre + lines_view(lines@).take(i as int), y),
        decreases lines.len() - i,
    {
        let line = string_of(&lines[i]);
        let t = trim_str(line.as_str());
        let tc = chars_of(t);
        let ghost old_list = lines_view(list@);
        let keep = tc.len() > 0 && !has_prefix(&tc, "#") && !has_suffix(&tc, ".ua");
        if keep {
            insert_sorted(list, tc);
        }
        let ghost s0 = pre + lines_view(lines@).take(i as int);
        let ghost s1 = pre + lines_view(lines@).take(i + 1);
        assert(s1 =~= s0.push(lines[i as int]@));
        assert forall|y: Seq<char>| #[trigger] lines_view(list@).contains(y) <==> listed_in(s1, y) by {
            if listed_in(s1, y) {
                let k = choose|k: int| 0 <= k < s1.len() && trimmed(#[trigger] s1[k]) == y;
                if k < s0.len() {
                    assert(s0[k] == s1[k]);
                    assert(listed_in(s0, y));
                }
            }
            if listed_in(s0, y) {
                let k = choose|k: int| 0 <= k < s0.len() && trimmed(#[trigger] s0[k]) == y;
                assert(s1[k] == s0[k]);
            }
            if keep && y == tc@ {
                assert(s1[s0.len() as int] == lines[i as int]@);
            }
        }
        i = i + 1;
    }
    assert(lines_view(lines@).take(lines.len() as int) =~= lines_view(lines@));
}

/// The domains of the bundled list `base_text` and the downloaded list
/// `remote_text`: each line trimmed; empty lines, `#` comments and `.ua`
/// domains dropped; every domain once, in ascending order.
pub fn merge_rule_lists(base_text: &str, remote_text: &str) -> (r: Vec<String>)
    ensures
        strictly_sorted(r.deep_view()),
        forall|y: Seq<char>| #[trigger] r.deep_view().contains(y) <==> listed_in(
            lines_of(base_text@) + lines_of(remote_text@),
            y,
        ),
{
    let base = split_lines(base_text);
    let remote = split_lines(remote_text);
    let mut list: Vec<Vec<char>> = Vec::new();
    assert(lines_view(list@) =~= Seq::<Seq<char>>::empty());
    let ghost empty = Seq::<Seq<char>>::empty();
    add_entries(&mut list, &base, Ghost(empty));
    assert(empty + lines_view(base@) =~= lines_of(base_text@));
    add_entries(&mut list, &remote, Ghost(lines_of(base_text@)));
    let mut out: Vec<String> = Vec::new();
    let mut i: usize = 0;
    while i < list.len()
        invariant
            i <= list.len(),
            out.deep_view() == lines_view(list@).take(i as int),
        decreases list.len() - i,
    {
        crate::text::push_text(&mut out, string_of(&list[i]));
        assert(lines_view(list@).take(i + 1) =~= lines_view(list@).take(i as int).push(list[i as int]@));
        i = i + 1;
    }
    assert(lines_view(list@).take(list.len() as int) =~= lines_view(list@));
    out
}

/// The rule-set document sing-box reads: version 1, one rule with the
/// domains as suffixes.
pub open spec fn rule_set_document(domains: Seq<Seq<char>>) -> JsonView {
    jobj(seq![
        ("version"@, jnum(1)),
        ("rules"@, jarr(seq![jobj(seq![("domain_suffix"@, jarr(str_items(domains)))])])),
    ])
}

pub fn rule_set_json(domains: &Vec<String>) -> (v: JsonValue)
    ensures
        v@ == rule_set_document(domains.deep_view()),
{
    let mut rule = new_members();
    put(&mut rule, "domain_suffix", jv_str_array(domains));
    assert(members_view(rule@) =~= seq![("domain_suffix"@, jarr(str_items(domains.deep_view())))]);
    let mut rules = new_items();
    push_item(&mut rules, jv_object(rule));
    let mut m = new_members();
    put(&mut m, "version", jv_num(1));
    put(&mut m, "rules", jv_array(rules));
    assert(members_view(m@) =~= rule_set_document(domains.deep_view())->Object_0);
    jv_object(m)
}

/// A strictly ascending list is determined by its members: two such lists
/// with the same members are equal. (So the contract of
/// [`merge_rule_lists`] fixes its answer.)
pub proof fn law_sorted_list_determined_by_members(a: Seq<Seq<char>>, b: Seq<Seq<char>>)
    requires
        strictly_sorted(a),
        strictly_sorted(b),
        forall|y: Seq<char>| #![trigger a.contains(y)] #![trigger b.contains(y)] a.contains(y) <==> b.contains(y),
    ensures
        a == b,
    decreases a.len() + b.len(),
{
    if a.len() == 0 {
        if b.len() > 0 {
            assert(b.contains(b[0]));
        }
        assert(a =~= b);
    } else {
        assert(a.contains(a[0]));
        assert(b.len() > 0);
        assert(b.contains(b[0]));
        let j = choose|j: int| 0 <= j < b.len() && b[j] == a[0];
        let k = choose|k: int| 0 <= k < a.len() && a[k] == b[0];
        if j > 0 {
            assert(text_less(b[0], b[j]));
            if k > 0 {
                assert(text_less(a[0], a[k]));
                lemma_text_less_asymmetric(a[0], b[0]);
            } else {
                lemma_text_less_irreflexive(a[0]);
            }
        }
        assert(a[0] == b[0]);
        let a1 = a.drop_first();
        let b1 = b.drop_first();
        assert forall|y: Seq<char>| #![trigger a1.contains(y)] #![trigger b1.contains(y)] a1.contains(y) <==> b1.contains(y) by {
            if a1.contains(y) {
                let i = choose|i: int| 0 <= i < a1.len() && a1[i] == y;
                assert(a[i + 1] == y);
                assert(text_less(a[0], a[i + 1]));
                lemma_text_less_irreflexive(y);
                assert(a.contains(y));
                let m = choose|m: int| 0 <= m < b.len() && b[m] == y;
                assert(m != 0);
                assert(b1[m - 1] == y);
            }
            if b1.contains(y) {
                let i = choose|i: int| 0 <= i < b1.len() && b1[i] == y;
                assert(b[i + 1] == y);
                assert(text_less(b[0], b[i + 1]));
                lemma_text_less_irreflexive(y);
                assert(b.contains(y));
                let m = choose|m: int| 0 <= m < a.len() && a[m] == y;
                assert(m != 0);
                assert(a1[m - 1] == y);
            }
        }
        assert(strictly_sorted(a1)) by {
            assert forall|i: int, j: int| 0 <= i < j < a1.len() implies text_less(#[trigger] a1[i], #[trigger] a1[j]) by {
                assert(a1[i] == a[i + 1] && a1[j] == a[j + 1]);
            }
        }
        assert(strictly_sorted(b1)) by {
            assert forall|i: int, j: int| 0 <= i < j < b1.len() implies text_less(#[trigger] b1[i], #[trigger] b1[j]) by {
                assert(b1[i] == b[i + 1] && b1[j] == b[j + 1]);
            }
        }
        law_sorted_list_determined_by_members(a1, b1);
        assert(a =~= seq![a[0]] + a1);
        assert(b =~= seq![b[0]] + b1);
    }
}


/// What the merged list keeps, line by line: every line of either list,
/// trimmed, is kept unless the trimmed line is empty, starts with `#` or
/// ends with `.ua`; and everything kept is such a trimmed line.
pub proof fn law_merge_keeps_every_domain_line(base: Seq<char>, remote: Seq<char>, y: Seq<char>)
    ensures
        ({
            let lines = lines_of(base) + lines_of(remote);
            &&& forall|i: int| 0 <= i < lines.len() && trimmed(#[trigger] lines[i]).len() > 0
                && trimmed(lines[i])[0] != '#' && !ends_with(trimmed(lines[i]), ".ua"@)
                ==> listed_in(lines, trimmed(lines[i]))
            &&& listed_in(lines, y) ==> y.len() > 0 && y[0] != '#' && !ends_with(y, ".ua"@)
                && exists|i: int| 0 <= i < lines.len() && trimmed(#[trigger] lines[i]) == y
        }),
{
    reveal_strlit("#");
    let lines = lines_of(base) + lines_of(remote);
    assert forall|i: int| 0 <= i < lines.len() && trimmed(#[trigger] lines[i]).len() > 0
        && trimmed(lines[i])[0] != '#' && !ends_with(trimmed(lines[i]), ".ua"@)
        implies listed_in(lines, trimmed(lines[i])) by {
        let t = trimmed(lines[i]);
        if starts_with(t, "#"@) {
            assert(t.subrange(0, 1)[0] == t[0]);
        }
    }
    if listed_in(lines, y) {
        if y[0] == '#' {
            assert(y.subrange(0, 1) =~= "#"@);
        }
    }
}


/// `a` is before `b` in dictionary order: after their longest common
/// prefix, either `a` ends and `b` goes on, or `a`'s next character has the
/// lower code.
pub open spec fn dictionary_before(a: Seq<char>, b: Seq<char>) -> bool {
    exists|k: int| 0 <= k <= a.len() && k <= b.len() && #[trigger] a.subrange(0, k) == b.subrange(0, k) && (
        (k == a.len() && k < b.len()) || (k < a.len() && k < b.len() && a[k] < b[k]))
}

/// The order of the merged list is dictionary order by character code, and
/// a strictly sorted list has every entry before every later one in it.
pub proof fn law_text_order_is_dictionary_order(a: Seq<char>, b: Seq<char>, s: Seq<Seq<char>>)
    ensures
        text_less(a, b) <==> dictionary_before(a, b),
        strictly_sorted(s) ==> forall|i: int, j: int| 0 <= i < j < s.len() ==> dictionary_before(#[trigger] s[i], #[trigger] s[j]),
{
    lemma_text_less_dictionary(a, b);
    if strictly_sorted(s) {
        assert forall|i: int, j: int| 0 <= i < j < s.len() implies dictionary_before(#[trigger] s[i], #[trigger] s[j]) by {
            lemma_text_less_dictionary(s[i], s[j]);
        }
    }
}

proof fn lemma_text_less_dictionary(a: Seq<char>, b: Seq<char>)
    ensures
        text_less(a, b) <==> dictionary_before(a, b),
    decreases a.len(),
{
    if a.len() == 0 {
        if b.len() > 0 {
            assert(a.subrange(0, 0) =~= b.subrange(0, 0));
        }
    } else if b.len() == 0 {
        if dictionary_before(a, b) {
            let k = choose|k: int| 0 <= k <= a.len() && k <= b.len() && #[trigger] a.subrange(0, k) == b.subrange(0, k) && (
                (k == a.len() && k < b.len()) || (k < a.len() && k < b.len() && a[k] < b[k]));
        }
    } else if a[0] != b[0] {
        if text_less(a, b) {
            assert(a.subrange(0, 0) =~= b.subrange(0, 0));
        }
        if dictionary_before(a, b) {
            let k = choose|k: int| 0 <= k <= a.len() && k <= b.len() && #[trigger] a.subrange(0, k) == b.subrange(0, k) && (
                (k == a.len() && k < b.len()) || (k < a.len() && k < b.len() && a[k] < b[k]));
            if k > 0 {
                assert(a.subrange(0, k)[0] == b.subrange(0, k)[0]);
            }
        }
    } else {
        let a1 = a.drop_first();
        let b1 = b.drop_first();
        lemma_text_less_dictionary(a1, b1);
        if dictionary_before(a1, b1) {
            let k = choose|k: int| 0 <= k <= a1.len() && k <= b1.len() && #[trigger] a1.subrange(0, k) == b1.subrange(0, k) && (
                (k == a1.len() && k < b1.len()) || (k < a1.len() && k < b1.len() && a1[k] < b1[k]));
            assert(a.subrange(0, k + 1) =~= b.subrange(0, k + 1)) by {
                assert forall|m: int| 0 <= m < k + 1 implies #[trigger] a.subrange(0, k + 1)[m] == b.subrange(0, k + 1)[m] by {
                    if m > 0 {
                        assert(a1.subrange(0, k)[m - 1] == b1.subrange(0, k)[m - 1]);
                    }
                }
            }
            if k < a1.len() && k < b1.len() {
                assert(a[k + 1] == a1[k] && b[k + 1] == b1[k]);
            }
        }
        if dictionary_before(a, b) {
            let k = choose|k: int| 0 <= k <= a.len() && k <= b.len() && #[trigger] a.subrange(0, k) == b.subrange(0, k) && (
                (k == a.len() && k < b.len()) || (k < a.len() && k < b.len() && a[k] < b[k]));
            assert(k > 0);
            assert(a1.subrange(0, k - 1) =~= b1.subrange(0, k - 1)) by {
                assert forall|m: int| 0 <= m < k - 1 implies #[trigger] a1.subrange(0, k - 1)[m] == b1.subrange(0, k - 1)[m] by {
                    assert(a.subrange(0, k)[m + 1] == b.subrange(0, k)[m + 1]);
                }
            }
            assert(dictionary_before(a1, b1));
        }
    }
}


proof fn lemma_lines_done_prefix(s: Seq<char>, done: Seq<Seq<char>>, cur: Seq<char>)
    ensures
        lines_from(s, done, cur) == done + lines_from(s, Seq::empty(), cur),
    decreases s.len(),
{
    if s.len() == 0 {
        if cur.len() > 0 {
            assert(done.push(cur) =~= done + Seq::<Seq<char>>::empty().push(cur));
        } else {
            assert(done =~= done + Seq::<Seq<char>>::empty());
        }
    } else if s[0] == '\n' {
        lemma_lines_done_prefix(s.drop_first(), done.push(strip_cr(cur)), Seq::empty());
        lemma_lines_done_prefix(s.drop_first(), Seq::<Seq<char>>::empty().push(strip_cr(cur)), Seq::empty());
        assert(done.push(strip_cr(cur)) + lines_from(s.drop_first(), Seq::empty(), Seq::empty())
            =~= done + (Seq::<Seq<char>>::empty().push(strip_cr(cur)) + lines_from(s.drop_first(), Seq::empty(), Seq::empty())));
    } else {
        lemma_lines_done_prefix(s.drop_first(), done, cur.push(s[0]));
        lemma_lines_done_prefix(s.drop_first(), Seq::empty(), cur.push(s[0]));
    }
}

proof fn lemma_lines_through_line(l: Seq<char>, rest: Seq<char>, done: Seq<Seq<char>>, cur: Seq<char>)
    requires
        !l.contains('\n'),
    ensures
        lines_from(l + seq!['\n'] + rest, done, cur) == lines_from(rest, done.push(strip_cr(cur + l)), Seq::empty()),
        lines_from(l, done, cur) == (if (cur + l).len() > 0 { done.push(cur + l) } else { done }),
    decreases l.len(),
{
    let s = l + seq!['\n'] + rest;
    if l.len() == 0 {
        assert(s[0] == '\n');
        assert(s.drop_first() =~= rest);
        assert(cur + l =~= cur);
    } else {
        let l1 = l.drop_first();
        assert(!l1.contains('\n')) by {
            if l1.contains('\n') {
                let k = choose|k: int| 0 <= k < l1.len() && l1[k] == '\n';
                assert(l[k + 1] == '\n');
            }
        }
        assert(s[0] == l[0]);
        assert(l[0] != '\n') by {
            if l[0] == '\n' {
                assert(l.contains('\n'));
            }
        }
        assert(s.drop_first() =~= l1 + seq!['\n'] + rest);
        assert(l.drop_first() == l1);
        lemma_lines_through_line(l1, rest, done, cur.push(l[0]));
        assert(cur.push(l[0]) + l1 =~= cur + l);
    }
}

/// Splitting into lines is `str::lines`: a line runs up to a `\n`, loses a
/// `\r` just before that `\n`, and is followed by the lines of the rest;
/// the last line needs no `\n` and is dropped only when empty.
pub proof fn law_lines_split_at_newlines(l: Seq<char>, rest: Seq<char>)
    requires
        !l.contains('\n'),
    ensures
        lines_of(l + seq!['\n'] + rest) == seq![
            if l.len() > 0 && l[l.len() - 1] == '\r' { l.subrange(0, l.len() - 1) } else { l },
        ] + lines_of(rest),
        lines_of(l) == (if l.len() > 0 { seq![l] } else { Seq::<Seq<char>>::empty() }),
{
    let e = Seq::<char>::empty();
    lemma_lines_through_line(l, rest, Seq::empty(), e);
    assert(e + l =~= l);
    lemma_lines_done_prefix(rest, Seq::<Seq<char>>::empty().push(strip_cr(l)), e);
    assert(Seq::<Seq<char>>::empty().push(strip_cr(l)) =~= seq![strip_cr(l)]);
    if l.len() > 0 && l[l.len() - 1] == '\r' {
        assert(l.drop_last() =~= l.subrange(0, l.len() - 1));
    }
    if l.len() > 0 {
        assert(Seq::<Seq<char>>::empty().push(l) =~= seq![l]);
    }
}

} // verus!
