use vstd::prelude::*;
use crate::singbox::join_lines;
use crate::text::{
    chars_of, lowercase_str, lowercased, push_char, push_text, same_text, trim_str, trimmed,
};

verus! {

broadcast use vstd::string::group_string_axioms;

// ------------------------------------------------------------------
// Text maps
// ------------------------------------------------------------------

/// The map that a list of entries denotes, later entries overriding
/// earlier ones.
pub open spec fn map_of(s: Seq<(Seq<char>, Seq<char>)>) -> Map<Seq<char>, Seq<char>>
    decreases s.len(),
{
    if s.len() == 0 {
        Map::empty()
    } else {
        map_of(s.drop_last()).insert(s.last().0, s.last().1)
    }
}

pub open spec fn key_is_not(k: Seq<char>) -> spec_fn((Seq<char>, Seq<char>)) -> bool {
    |e: (Seq<char>, Seq<char>)| e.0 != k
}

proof fn lemma_map_of_without(s: Seq<(Seq<char>, Seq<char>)>, k: Seq<char>)
    ensures
        map_of(s.filter(key_is_not(k))) == map_of(s).remove(k),
    decreases s.len(),
{
    if s.len() == 0 {
        assert(s.filter(key_is_not(k)) =~= s) by {
            reveal(Seq::filter);
        }
        assert(map_of(s).remove(k) =~= map_of(s));
    } else {
        let init = s.drop_last();
        lemma_map_of_without(init, k);
        assert(init.push(s.last()) =~= s);
        init.lemma_filter_push(s.last(), key_is_not(k));
        let f = init.filter(key_is_not(k));
        assert(f.push(s.last()).drop_last() =~= f);
        if s.last().0 == k {
            assert(map_of(s).remove(k) =~= map_of(init).remove(k));
        } else {
            assert(map_of(s).remove(k) =~= map_of(init).remove(k).insert(s.last().0, s.last().1));
        }
    }
}

/// A map from texts to texts, as a list of entries.
pub struct TextMap {
    entries: Vec<(String, String)>,
}

pub open spec fn entries_view(s: Seq<(String, String)>) -> Seq<(Seq<char>, Seq<char>)> {
    s.map_values(|e: (String, String)| (e.0@, e.1@))
}

impl View for TextMap {
    type V = Map<Seq<char>, Seq<char>>;

    closed spec fn view(&self) -> Map<Seq<char>, Seq<char>> {
        map_of(entries_view(self.entries@))
    }
}

impl TextMap {
    pub fn new() -> (m: TextMap)
        ensures
            m@ == Map::<Seq<char>, Seq<char>>::empty(),
    {
        let m = TextMap { entries: Vec::new() };
        assert(entries_view(m.entries@) =~= Seq::<(Seq<char>, Seq<char>)>::empty());
        m
    }

    /// The value stored for `key`.
    pub fn get(&self, key: &str) -> (r: Option<String>)
        ensures
            match r {
                Some(v) => self@.contains_key(key@) && self@[key@] == v@,
                None => !self@.contains_key(key@),
            },
    {
        let ghost ev = entries_view(self.entries@);
        let mut found: Option<String> = None;
        let mut i: usize = 0;
        while i < self.entries.len()
            invariant
                i <= self.entries.len(),
                ev == entries_view(self.entries@),
                match found {
                    Some(v) => map_of(ev.take(i as int)).contains_key(key@) && map_of(ev.take(i as int))[key@] == v@,
                    None => !map_of(ev.take(i as int)).contains_key(key@),
                },
            decreases self.entries.len() - i,
        {
            assert(ev.take(i + 1).drop_last() =~= ev.take(i as int));
            if same_text(self.entries[i].0.as_str(), key) {
                found = Some(self.entries[i].1.clone());
            }
            i = i + 1;
        }
        assert(ev.take(self.entries.len() as int) =~= ev);
        found
    }

    /// Stores `value` for `key`, replacing what was stored.
    pub fn insert(&mut self, key: String, value: String)
        ensures
            final(self)@ == old(self)@.insert(key@, value@),
    {
        let ghost ev = entries_view(self.entries@);
        let mut kept: Vec<(String, String)> = Vec::new();
        let mut i: usize = 0;
        while i < self.entries.len()
            invariant
                i <= self.entries.len(),
                ev == entries_view(self.entries@),
                entries_view(kept@) == ev.take(i as int).filter(key_is_not(key@)),
            decreases self.entries.len() - i,
        {
            proof {
                assert(ev.take(i + 1) =~= ev.take(i as int).push(ev[i as int]));
                ev.take(i as int).lemma_filter_push(ev[i as int], key_is_not(key@));
            }
            if !same_text(self.entries[i].0.as_str(), key.as_str()) {
                let ghost k0 = kept@;
                kept.push((self.entries[i].0.clone(), self.entries[i].1.clone()));
                assert(entries_view(kept@) =~= entries_view(k0).push(ev[i as int]));
            }
            i = i + 1;
        }
        assert(ev.take(self.entries.len() as int) =~= ev);
        proof {
            lemma_map_of_without(ev, key@);
        }
        let ghost k1 = kept@;
        kept.push((key, value));
        assert(entries_view(kept@) =~= entries_view(k1).push((key@, value@)));
        assert(entries_view(kept@).drop_last() =~= entries_view(k1));
        self.entries = kept;
        assert(self@ =~= old(self)@.insert(key@, value@));
    }

    /// The keys that have a stored value.
    pub fn keys(&self) -> (r: Vec<String>)
        ensures
            forall|k: Seq<char>| #[trigger] r.deep_view().contains(k) <==> self@.contains_key(k),
    {
        let ghost ev = entries_view(self.entries@);
        let mut r: Vec<String> = Vec::new();
        let mut i: usize = 0;
        while i < self.entries.len()
            invariant
                i <= self.entries.len(),
                ev == entries_view(self.entries@),
                forall|k: Seq<char>| #[trigger] r.deep_view().contains(k) <==> map_of(ev.take(i as int)).contains_key(k),
            decreases self.entries.len() - i,
        {
            assert(ev.take(i + 1).drop_last() =~= ev.take(i as int));
            assert(ev.take(i + 1).last() == ev[i as int]);
            assert(map_of(ev.take(i + 1)) == map_of(ev.take(i as int)).insert(ev[i as int].0, ev[i as int].1));
            assert(ev[i as int].0 == self.entries[i as int].0@);
            let ghost r0 = r.deep_view();
            push_text(&mut r, self.entries[i].0.clone());
            let ghost m0 = map_of(ev.take(i as int));
            let ghost key_i = ev[i as int].0;
            assert(r.deep_view() == r0.push(key_i));
            assert forall|k: Seq<char>| #[trigger] r.deep_view().contains(k) implies map_of(ev.take(i + 1)).contains_key(k) by {
                let j = choose|j: int| 0 <= j < r.deep_view().len() && r.deep_view()[j] == k;
                if j < r0.len() {
                    assert(r0[j] == k);
                    assert(r0.contains(k));
                    assert(m0.contains_key(k));
                }
            }
            assert forall|k: Seq<char>| map_of(ev.take(i + 1)).contains_key(k) implies #[trigger] r.deep_view().contains(k) by {
                if k == key_i {
                    assert(r.deep_view()[r0.len() as int] == k);
                } else {
                    assert(m0.contains_key(k));
                    assert(r0.contains(k));
                    let j = choose|j: int| 0 <= j < r0.len() && r0[j] == k;
                    assert(r.deep_view()[j] == k);
                }
            }
            i = i + 1;
        }
        assert(ev.take(self.entries.len() as int) =~= ev);
        r
    }
}

// ------------------------------------------------------------------
// Icon lookup
// ------------------------------------------------------------------

/// The PowerShell literal for a path: in single quotes, each `'` doubled.
pub open spec fn ps_quoted(p: Seq<char>) -> Seq<char>
    decreases p.len(),
{
    if p.len() == 0 {
        Seq::empty()
    } else if p.last() == '\'' {
        ps_quoted(p.drop_last()) + seq!['\'', '\'']
    } else {
        ps_quoted(p.drop_last()).push(p.last())
    }
}

/// The paths as a PowerShell array body: quoted, separated by `, `.
pub open spec fn ps_path_list(paths: Seq<Seq<char>>) -> Seq<char>
    decreases paths.len(),
{
    if paths.len() == 0 {
        Seq::empty()
    } else if paths.len() == 1 {
        seq!['\''] + ps_quoted(paths[0]) + seq!['\'']
    } else {
        ps_path_list(paths.drop_last()) + ", "@ + seq!['\''] + ps_quoted(paths.last()) + seq!['\'']
    }
}

pub open spec fn icon_script_head() -> Seq<char> {
    "\n        Add-Type -AssemblyName System.Drawing\n        $paths = @("@
}

pub open spec fn icon_script_tail() -> Seq<char> {
    ")\n        $res = @{}\n        foreach ($path in $paths) {\n            try {\n                $icon = [System.Drawing.Icon]::ExtractAssociatedIcon($path)\n                if ($icon -ne $null) {\n                    $bmp = $icon.ToBitmap()\n                    $ms = New-Object System.IO.MemoryStream\n                    $bmp.Save($ms, [System.Drawing.Imaging.ImageFormat]::Png)\n                    $res[$path] = \"data:image/png;base64,\" + [Convert]::ToBase64String($ms.ToArray())\n                }\n            } catch {}\n        }\n        $res | ConvertTo-Json -Compress\n        "@
}

/// The PowerShell script that prints, as compact JSON, the PNG icon (as a
/// data URL) of each of the given executables.
pub open spec fn icon_script_spec(paths: Seq<Seq<char>>) -> Seq<char> {
    icon_script_head() + ps_path_list(paths) + icon_script_tail()
}

fn push_quoted(s: &mut String, p: &str)
    ensures
        final(s)@ == old(s)@ + seq!['\''] + ps_quoted(p@) + seq!['\''],
{
    let v = chars_of(p);
    let ghost start = s@;
    push_char(s, '\'');
    let mut i: usize = 0;
    while i < v.len()
        invariant
            i <= v.len(),
            v@ == p@,
            s@ == start + seq!['\''] + ps_quoted(v@.take(i as int)),
        decreases v.len() - i,
    {
        assert(v@.take(i + 1).drop_last() =~= v@.take(i as int));
        let ghost s0 = s@;
        if v[i] == '\'' {
            push_char(s, '\'');
            push_char(s, '\'');
            assert(s@ =~= s0 + seq!['\'', '\'']);
        } else {
            push_char(s, v[i]);
        }
        i = i + 1;
    }
    assert(v@.take(v.len() as int) =~= v@);
    push_char(s, '\'');
    assert(s@ =~= start + seq!['\''] + ps_quoted(p@) + seq!['\'']);
}

/// The script that extracts the icons of the executables at `paths`.
pub fn icon_script(paths: &Vec<String>) -> (s: String)
    ensures
        s@ == icon_script_spec(paths.deep_view()),
{
    let mut s = String::from_str("\n        Add-Type -AssemblyName System.Drawing\n        $paths = @(");
    let ghost head = s@;
    let mut i: usize = 0;
    while i < paths.len()
        invariant
            i <= paths.len(),
            head == icon_script_head(),
            s@ == head + ps_path_list(paths.deep_view().take(i as int)),
        decreases paths.len() - i,
    {
        assert(paths.deep_view().take(i + 1).drop_last() =~= paths.deep_view().take(i as int));
        let ghost s0 = s@;
        if i > 0 {
            s.append(", ");
        }
        push_quoted(&mut s, paths[i].as_str());
        proof {
            if i == 0 {
                assert(s@ =~= head + ps_path_list(paths.deep_view().take(1)));
            } else {
                assert(s@ =~= head + ps_path_list(paths.deep_view().take(i + 1)));
            }
        }
        i = i + 1;
    }
    assert(paths.deep_view().take(paths.len() as int) =~= paths.deep_view());
    s.append(")\n        $res = @{}\n        foreach ($path in $paths) {\n            try {\n                $icon = [System.Drawing.Icon]::ExtractAssociatedIcon($path)\n                if ($icon -ne $null) {\n                    $bmp = $icon.ToBitmap()\n                    $ms = New-Object System.IO.MemoryStream\n                    $bmp.Save($ms, [System.Drawing.Imaging.ImageFormat]::Png)\n                    $res[$path] = \"data:image/png;base64,\" + [Convert]::ToBase64String($ms.ToArray())\n                }\n            } catch {}\n        }\n        $res | ConvertTo-Json -Compress\n        ");
    s
}

impl TextMap {
    /// The stored entries as `(key, value)` pairs.
    pub fn to_pairs(&self) -> (r: Vec<(String, String)>)
        ensures
            forall|k: Seq<char>| #[trigger] self@.contains_key(k) <==> exists|i: int| 0 <= i < r@.len() && (#[trigger] r@[i]).0@ == k,
            forall|i: int| 0 <= i < r@.len() ==> self@.contains_key((#[trigger] r@[i]).0@) && self@[r@[i].0@] == r@[i].1@,
    {
        let keys = self.keys();
        let mut out: Vec<(String, String)> = Vec::new();
        let mut i: usize = 0;
        while i < keys.len()
            invariant
                i <= keys.len(),
                forall|k: Seq<char>| #[trigger] keys.deep_view().contains(k) <==> self@.contains_key(k),
                out@.len() == i,
                forall|j: int| 0 <= j < i ==> (#[trigger] out@[j]).0@ == keys.deep_view()[j],
                forall|j: int| 0 <= j < i ==> self@.contains_key((#[trigger] out@[j]).0@) && self@[out@[j].0@] == out@[j].1@,
            decreases keys.len() - i,
        {
            assert(keys.deep_view().contains(keys.deep_view()[i as int]));
            let v = self.get(keys[i].as_str());
            match v {
                Some(v) => {
                    out.push((keys[i].clone(), v));
                },
                None => {
                    assert(false);
                },
            }
            i = i + 1;
        }
        assert forall|k: Seq<char>| #[trigger] self@.contains_key(k) implies exists|i: int| 0 <= i < out@.len() && (#[trigger] out@[i]).0@ == k by {
            assert(keys.deep_view().contains(k));
            let j = choose|j: int| 0 <= j < keys.deep_view().len() && keys.deep_view()[j] == k;
            assert(out@[j].0@ == k);
        }
        out
    }
}

/// The cached icons of the requested names, and the requested names with
/// no cached icon (in request order).
pub fn split_cached(names: &Vec<String>, cache: &TextMap) -> (r: (TextMap, Vec<String>))
    ensures
        forall|k: Seq<char>| #[trigger] r.0@.contains_key(k) <==> (names.deep_view().contains(k) && cache@.contains_key(k)),
        forall|k: Seq<char>| #[trigger] r.0@.contains_key(k) ==> r.0@[k] == cache@[k],
        r.1.deep_view() == names.deep_view().filter(|n: Seq<char>| !cache@.contains_key(n)),
{
    let ghost nv = names.deep_view();
    let ghost uncached = |n: Seq<char>| !cache@.contains_key(n);
    let mut found = TextMap::new();
    let mut missing: Vec<String> = Vec::new();
    let mut i: usize = 0;
    while i < names.len()
        invariant
            i <= names.len(),
            nv == names.deep_view(),
            uncached == (|n: Seq<char>| !cache@.contains_key(n)),
            forall|k: Seq<char>| #[trigger] found@.contains_key(k) <==> (nv.take(i as int).contains(k) && cache@.contains_key(k)),
            forall|k: Seq<char>| #[trigger] found@.contains_key(k) ==> found@[k] == cache@[k],
            missing.deep_view() == nv.take(i as int).filter(uncached),
        decreases names.len() - i,
    {
        let ghost t0 = nv.take(i as int);
        assert(nv.take(i + 1) =~= t0.push(nv[i as int]));
        proof {
            t0.lemma_filter_push(nv[i as int], uncached);
        }
        match cache.get(names[i].as_str()) {
            Some(icon) => {
                found.insert(names[i].clone(), icon);
            },
            None => {
                push_text(&mut missing, names[i].clone());
            },
        }
        assert forall|k: Seq<char>| #[trigger] found@.contains_key(k) <==> (nv.take(i + 1).contains(k) && cache@.contains_key(k)) by {
            let t1 = nv.take(i + 1);
            if t1.contains(k) && k != nv[i as int] {
                let j = choose|j: int| 0 <= j < t1.len() && t1[j] == k;
                assert(t0[j] == k);
            }
            if t0.contains(k) {
                let j = choose|j: int| 0 <= j < t0.len() && t0[j] == k;
                assert(t1[j] == k);
            }
            if k == nv[i as int] {
                assert(t1[i as int] == k);
            }
        }
        i = i + 1;
    }
    assert(nv.take(names.len() as int) =~= nv);
    (found, missing)
}

pub open spec fn procs_exe_view(procs: Seq<(String, Option<String>)>) -> Seq<(Seq<char>, Option<Seq<char>>)> {
    procs.map_values(|p: (String, Option<String>)| (p.0@, match p.1 { Some(e) => Some(e@), None => None }))
}

/// The executable path of the first process whose lower-cased name is
/// `key` and whose path is known.
pub open spec fn first_exe(procs: Seq<(Seq<char>, Option<Seq<char>>)>, key: Seq<char>) -> Option<Seq<char>>
    decreases procs.len(),
{
    if procs.len() == 0 {
        None
    } else if lowercased(procs[0].0) == key && procs[0].1 is Some {
        procs[0].1
    } else {
        first_exe(procs.drop_first(), key)
    }
}

/// Where the executable named `name` (ignoring case) lives: the path of the
/// first matching process with a known path, unless that path is empty.
pub open spec fn exe_path_of(procs: Seq<(Seq<char>, Option<Seq<char>>)>, name: Seq<char>) -> Option<Seq<char>> {
    match first_exe(procs, lowercased(name)) {
        Some(p) => if p.len() > 0 { Some(p) } else { None },
        None => None,
    }
}

/// Finds the executable path of the running program `name`; `procs` pairs
/// each process's name with its executable path, when known.
pub fn find_exe_path(name: &str, procs: &Vec<(String, Option<String>)>) -> (r: Option<String>)
    ensures
        match r {
            Some(p) => exe_path_of(procs_exe_view(procs@), name@) == Some(p@),
            None => exe_path_of(procs_exe_view(procs@), name@) is None,
        },
{
    let ghost pv = procs_exe_view(procs@);
    let key = lowercase_str(name);
    let mut i: usize = 0;
    assert(pv.skip(0) =~= pv);
    while i < procs.len()
        invariant
            i <= procs.len(),
            pv == procs_exe_view(procs@),
            key@ == lowercased(name@),
            first_exe(pv, key@) == first_exe(pv.skip(i as int), key@),
        decreases procs.len() - i,
    {
        assert(pv.skip(i as int)[0] == pv[i as int]);
        assert(pv.skip(i as int).drop_first() =~= pv.skip(i + 1));
        let low = lowercase_str(procs[i].0.as_str());
        if low == key {
            match &procs[i].1 {
                Some(path) => {
                    assert(pv[i as int] == (procs@[i as int].0@, Some(path@)));
                    assert(first_exe(pv.skip(i as int), key@) == Some(path@));
                    if path.as_str().is_empty() {
                        return None;
                    }
                    return Some(path.clone());
                },
                None => {
                    assert(pv[i as int].1 is None);
                },
            }
        }
        i = i + 1;
    }
    assert(pv.skip(i as int) =~= Seq::<(Seq<char>, Option<Seq<char>>)>::empty());
    None
}

/// The paths to fetch icons from and which requested name each path is
/// for, in request order; a later name for the same path replaces the
/// earlier one.
pub open spec fn fetch_plan(missing: Seq<Seq<char>>, procs: Seq<(Seq<char>, Option<Seq<char>>)>) -> (Seq<Seq<char>>, Map<Seq<char>, Seq<char>>)
    decreases missing.len(),
{
    if missing.len() == 0 {
        (Seq::empty(), Map::empty())
    } else {
        let prev = fetch_plan(missing.drop_last(), procs);
        match exe_path_of(procs, missing.last()) {
            Some(p) => (prev.0.push(p), prev.1.insert(p, missing.last())),
            None => prev,
        }
    }
}

/// The cache after noting, for each name whose executable was not found,
/// that it has no icon (an empty entry), so it is not looked up again.
pub open spec fn blank_unfound(cache: Map<Seq<char>, Seq<char>>, missing: Seq<Seq<char>>, procs: Seq<(Seq<char>, Option<Seq<char>>)>) -> Map<Seq<char>, Seq<char>>
    decreases missing.len(),
{
    if missing.len() == 0 {
        cache
    } else {
        let prev = blank_unfound(cache, missing.drop_last(), procs);
        if exe_path_of(procs, missing.last()) is None {
            prev.insert(missing.last(), Seq::empty())
        } else {
            prev
        }
    }
}

/// Finds the executables of the names without a cached icon; names whose
/// executable is not found get an empty cache entry.
pub fn plan_icon_fetch(missing: &Vec<String>, procs: &Vec<(String, Option<String>)>, cache: &mut TextMap) -> (r: (Vec<String>, TextMap))
    ensures
        r.0.deep_view() == fetch_plan(missing.deep_view(), procs_exe_view(procs@)).0,
        r.1@ == fetch_plan(missing.deep_view(), procs_exe_view(procs@)).1,
        final(cache)@ == blank_unfound(old(cache)@, missing.deep_view(), procs_exe_view(procs@)),
{
    let ghost mv = missing.deep_view();
    let ghost pv = procs_exe_view(procs@);
    let ghost c0 = cache@;
    let mut paths: Vec<String> = Vec::new();
    let mut p2n = TextMap::new();
    let mut i: usize = 0;
    assert(paths.deep_view() =~= Seq::<Seq<char>>::empty());
    while i < missing.len()
        invariant
            i <= missing.len(),
            mv == missing.deep_view(),
            pv == procs_exe_view(procs@),
            paths.deep_view() == fetch_plan(mv.take(i as int), pv).0,
            p2n@ == fetch_plan(mv.take(i as int), pv).1,
            cache@ == blank_unfound(c0, mv.take(i as int), pv),
        decreases missing.len() - i,
    {
        assert(mv.take(i + 1).drop_last() =~= mv.take(i as int));
        assert(mv.take(i + 1).last() == missing[i as int]@);
        match find_exe_path(missing[i].as_str(), procs) {
            Some(p) => {
                push_text(&mut paths, p.clone());
                p2n.insert(p, missing[i].clone());
            },
            None => {
                cache.insert(missing[i].clone(), String::new());
            },
        }
        i = i + 1;
    }
    assert(mv.take(missing.len() as int) =~= mv);
    (paths, p2n)
}

/// What `String::from_utf8_lossy` makes of some bytes: their text, with
/// each invalid sequence replaced by U+FFFD.
pub uninterp spec fn lossy_text(bytes: Seq<u8>) -> Seq<char>;

/// `String::from_utf8_lossy`. Claimed of it: valid UTF-8 decodes to the
/// text it encodes; how invalid input is patched up is left unsaid.
#[verifier::external_body]
pub(crate) fn text_from_bytes(bytes: &[u8]) -> (r: String)
    ensures
        r@ == lossy_text(bytes@),
        vstd::utf8::valid_utf8(bytes@) ==> r@ == vstd::utf8::decode_utf8(bytes@),
{
    String::from_utf8_lossy(bytes).into_owned()
}

/// What `serde_json::from_str` makes of a text read as a JSON object with
/// string values: its members (ascending by name), or `None` when the text
/// is not such an object.
pub uninterp spec fn json_string_map(text: Seq<char>) -> Option<Seq<(Seq<char>, Seq<char>)>>;

/// `serde_json::from_str` into a `BTreeMap<String, String>`, its members
/// listed in map order. Claimed of it: the outcome depends on the text
/// alone; which texts parse, and to what, is left unsaid.
#[verifier::external_body]
pub(crate) fn parse_string_map(text: &str) -> (r: Option<Vec<(String, String)>>)
    ensures
        match r {
            Some(v) => json_string_map(text@) == Some(entries_view(v@)),
            None => json_string_map(text@) is None,
        },
{
    match serde_json::from_str::<std::collections::BTreeMap<String, String>>(text) {
        Ok(m) => Some(m.into_iter().collect()),
        Err(_) => None,
    }
}

/// The icon map that the script printed: the output, decoded and trimmed,
/// read as a JSON object of strings; nothing when there is no output, it is
/// blank, or it does not parse.
pub open spec fn printed_icons(stdout: Option<Seq<u8>>) -> Option<Seq<(Seq<char>, Seq<char>)>> {
    match stdout {
        None => None,
        Some(b) => {
            let t = trimmed(lossy_text(b));
            if t.len() == 0 {
                None
            } else {
                json_string_map(t)
            }
        },
    }
}

/// `m` after recording, for each printed `(path, icon)` whose path was
/// asked for, the icon under the name the path was asked for.
pub open spec fn record_printed(printed: Seq<(Seq<char>, Seq<char>)>, path_names: Map<Seq<char>, Seq<char>>, m: Map<Seq<char>, Seq<char>>) -> Map<Seq<char>, Seq<char>>
    decreases printed.len(),
{
    if printed.len() == 0 {
        m
    } else {
        let prev = record_printed(printed.drop_last(), path_names, m);
        let e = printed.last();
        if path_names.contains_key(e.0) {
            prev.insert(path_names[e.0], e.1)
        } else {
            prev
        }
    }
}

/// Some path was asked for under `name`.
pub open spec fn asked_name(path_names: Map<Seq<char>, Seq<char>>, name: Seq<char>) -> bool {
    exists|p: Seq<char>| path_names.contains_key(p) && path_names[p] == name
}

fn record_pairs(printed: &Vec<(String, String)>, path_names: &TextMap, m: &mut TextMap)
    ensures
        final(m)@ == record_printed(entries_view(printed@), path_names@, old(m)@),
{
    let ghost pv = entries_view(printed@);
    let ghost m0 = m@;
    let mut i: usize = 0;
    while i < printed.len()
        invariant
            i <= printed.len(),
            pv == entries_view(printed@),
            m@ == record_printed(pv.take(i as int), path_names@, m0),
        decreases printed.len() - i,
    {
        assert(pv.take(i + 1).drop_last() =~= pv.take(i as int));
        assert(pv.take(i + 1).last() == pv[i as int]);
        match path_names.get(printed[i].0.as_str()) {
            Some(name) => {
                m.insert(name, printed[i].1.clone());
            },
            None => {},
        }
        i = i + 1;
    }
    assert(pv.take(printed.len() as int) =~= pv);
}

pub open spec fn bytes_view(b: Option<Vec<u8>>) -> Option<Seq<u8>> {
    match b {
        Some(v) => Some(v@),
        None => None,
    }
}

/// The cache with the printed icons recorded under the names their paths
/// were asked for.
pub open spec fn with_printed_icons(cache: Map<Seq<char>, Seq<char>>, path_names: Map<Seq<char>, Seq<char>>, stdout: Option<Seq<u8>>) -> Map<Seq<char>, Seq<char>> {
    match printed_icons(stdout) {
        Some(ps) => record_printed(ps, path_names, cache),
        None => cache,
    }
}

/// `new` is `old` after recording the printed icons and giving every asked
/// name still without an entry an empty one.
pub open spec fn cache_recorded(old: Map<Seq<char>, Seq<char>>, path_names: Map<Seq<char>, Seq<char>>, stdout: Option<Seq<u8>>, new: Map<Seq<char>, Seq<char>>) -> bool {
    let cached = with_printed_icons(old, path_names, stdout);
    &&& forall|k: Seq<char>| #[trigger] new.contains_key(k) <==> (cached.contains_key(k) || asked_name(path_names, k))
    &&& forall|k: Seq<char>| #[trigger] new.contains_key(k) ==> new[k] == (if cached.contains_key(k) {
        cached[k]
    } else {
        Seq::<char>::empty()
    })
}

/// Records the icons that the extraction script printed (`stdout`, when it
/// ran) in the cache and in the answer, under the names their paths were
/// asked for; then every asked name still without a cache entry gets an
/// empty one, so it is not looked up again.
pub fn record_icons(stdout: Option<Vec<u8>>, path_names: &TextMap, cache: &mut TextMap, result: &mut TextMap)
    ensures
        final(result)@ == match printed_icons(bytes_view(stdout)) {
            Some(ps) => record_printed(ps, path_names@, old(result)@),
            None => old(result)@,
        },
        cache_recorded(old(cache)@, path_names@, bytes_view(stdout), final(cache)@),
{
    match &stdout {
        Some(bytes) => {
            let text = text_from_bytes(bytes.as_slice());
            let t = trim_str(text.as_str());
            if !t.is_empty() {
                match parse_string_map(t) {
                    Some(printed) => {
                        record_pairs(&printed, path_names, cache);
                        record_pairs(&printed, path_names, result);
                    },
                    None => {},
                }
            }
        },
        None => {},
    }
    let ghost cached = cache@;
    let pairs = path_names.to_pairs();
    let mut i: usize = 0;
    while i < pairs.len()
        invariant
            i <= pairs.len(),
            forall|k: Seq<char>| #[trigger] path_names@.contains_key(k) <==> exists|j: int| 0 <= j < pairs@.len() && (#[trigger] pairs@[j]).0@ == k,
            forall|j: int| 0 <= j < pairs@.len() ==> path_names@.contains_key((#[trigger] pairs@[j]).0@) && path_names@[pairs@[j].0@] == pairs@[j].1@,
            forall|k: Seq<char>| #[trigger] cache@.contains_key(k) <==> (cached.contains_key(k) || exists|j: int| 0 <= j < i && (#[trigger] pairs@[j]).1@ == k),
            forall|k: Seq<char>| #[trigger] cache@.contains_key(k) ==> cache@[k] == (if cached.contains_key(k) {
                cached[k]
            } else {
                Seq::<char>::empty()
            }),
        decreases pairs.len() - i,
    {
        let name = &pairs[i].1;
        if cache.get(name.as_str()).is_none() {
            cache.insert(name.clone(), String::new());
        }
        assert forall|k: Seq<char>| #[trigger] cache@.contains_key(k) <==> (cached.contains_key(k) || exists|j: int| 0 <= j < i + 1 && (#[trigger] pairs@[j]).1@ == k) by {
            if k == pairs@[i as int].1@ {
                assert(pairs@[i as int].1@ == k);
            }
        }
        i = i + 1;
    }
    assert forall|k: Seq<char>| #[trigger] cache@.contains_key(k) <==> (cached.contains_key(k) || asked_name(path_names@, k)) by {
        if asked_name(path_names@, k) {
            let p = choose|p: Seq<char>| path_names@.contains_key(p) && path_names@[p] == k;
            let j = choose|j: int| 0 <= j < pairs@.len() && (#[trigger] pairs@[j]).0@ == p;
            assert(pairs@[j].1@ == k);
        }
        if exists|j: int| 0 <= j < pairs.len() && (#[trigger] pairs@[j]).1@ == k {
            let j = choose|j: int| 0 <= j < pairs.len() && (#[trigger] pairs@[j]).1@ == k;
            assert(path_names@.contains_key(pairs@[j].0@));
        }
    }
}


// ------------------------------------------------------------------
// What a lookup leaves in the cache
// ------------------------------------------------------------------

/// No two different names among `missing` are found at the same executable
/// path.
pub open spec fn paths_distinct(missing: Seq<Seq<char>>, procs: Seq<(Seq<char>, Option<Seq<char>>)>) -> bool {
    forall|i: int, j: int|
        0 <= i < missing.len() && 0 <= j < missing.len() && missing[i] != missing[j]
            && (#[trigger] exe_path_of(procs, missing[i])) is Some
            ==> exe_path_of(procs, missing[i]) != #[trigger] exe_path_of(procs, missing[j])
}

proof fn lemma_blank_unfound_grows(cache: Map<Seq<char>, Seq<char>>, missing: Seq<Seq<char>>, procs: Seq<(Seq<char>, Option<Seq<char>>)>, k: Seq<char>)
    requires
        cache.contains_key(k),
    ensures
        blank_unfound(cache, missing, procs).contains_key(k),
    decreases missing.len(),
{
    if missing.len() > 0 {
        lemma_blank_unfound_grows(cache, missing.drop_last(), procs, k);
    }
}

proof fn lemma_record_printed_grows(printed: Seq<(Seq<char>, Seq<char>)>, path_names: Map<Seq<char>, Seq<char>>, m: Map<Seq<char>, Seq<char>>, k: Seq<char>)
    requires
        m.contains_key(k),
    ensures
        record_printed(printed, path_names, m).contains_key(k),
    decreases printed.len(),
{
    if printed.len() > 0 {
        lemma_record_printed_grows(printed.drop_last(), path_names, m, k);
    }
}

proof fn lemma_empty_plan_asks_nothing(missing: Seq<Seq<char>>, procs: Seq<(Seq<char>, Option<Seq<char>>)>)
    requires
        fetch_plan(missing, procs).0.len() == 0,
    ensures
        fetch_plan(missing, procs).1 == Map::<Seq<char>, Seq<char>>::empty(),
    decreases missing.len(),
{
    if missing.len() > 0 {
        lemma_empty_plan_asks_nothing(missing.drop_last(), procs);
    }
}

/// Each name of `missing` either gets an empty cache entry (no executable
/// found) or is asked for under its executable's path.
proof fn lemma_missing_names_covered(cache: Map<Seq<char>, Seq<char>>, missing: Seq<Seq<char>>, procs: Seq<(Seq<char>, Option<Seq<char>>)>)
    requires
        paths_distinct(missing, procs),
    ensures
        forall|i: int| 0 <= i < missing.len() ==> blank_unfound(cache, missing, procs).contains_key(#[trigger] missing[i]) || (
            exe_path_of(procs, missing[i]) is Some
            && fetch_plan(missing, procs).1.contains_key(exe_path_of(procs, missing[i])->Some_0)
            && fetch_plan(missing, procs).1[exe_path_of(procs, missing[i])->Some_0] == missing[i]),
    decreases missing.len(),
{
    if missing.len() > 0 {
        let init = missing.drop_last();
        let l = missing.last();
        assert(paths_distinct(init, procs)) by {
            assert forall|i: int, j: int|
                0 <= i < init.len() && 0 <= j < init.len() && init[i] != init[j]
                    && (#[trigger] exe_path_of(procs, init[i])) is Some
                    implies exe_path_of(procs, init[i]) != #[trigger] exe_path_of(procs, init[j]) by {
                assert(init[i] == missing[i] && init[j] == missing[j]);
            }
        }
        lemma_missing_names_covered(cache, init, procs);
        assert forall|i: int| 0 <= i < missing.len() implies blank_unfound(cache, missing, procs).contains_key(#[trigger] missing[i]) || (
            exe_path_of(procs, missing[i]) is Some
            && fetch_plan(missing, procs).1.contains_key(exe_path_of(procs, missing[i])->Some_0)
            && fetch_plan(missing, procs).1[exe_path_of(procs, missing[i])->Some_0] == missing[i]) by {
            if i < init.len() {
                assert(init[i] == missing[i]);
                let n = missing[i];
                if n != l && exe_path_of(procs, n) is Some && exe_path_of(procs, l) is Some {
                    let last = missing.len() - 1;
                    assert(missing[last] == l);
                    assert(exe_path_of(procs, missing[i]) != exe_path_of(procs, missing[last]));
                }
            }
        }
    }
}

/// After a lookup every requested name has a cache entry (its icon, or an
/// empty one), so it is not looked up again: `missing` are the names the
/// cache lacked, the cache then gets an empty entry for each whose
/// executable was not found, and, when some executable was found, the
/// icons the script printed are recorded. This holds whenever no two
/// different missing names are found at the same executable path.
pub proof fn law_requested_names_end_up_cached(
    names: Seq<Seq<char>>,
    cache: Map<Seq<char>, Seq<char>>,
    procs: Seq<(Seq<char>, Option<Seq<char>>)>,
    stdout: Option<Seq<u8>>,
    after: Map<Seq<char>, Seq<char>>,
)
    requires
        paths_distinct(names.filter(|n: Seq<char>| !cache.contains_key(n)), procs),
        ({
            let missing = names.filter(|n: Seq<char>| !cache.contains_key(n));
            let blanked = blank_unfound(cache, missing, procs);
            let plan = fetch_plan(missing, procs);
            if plan.0.len() == 0 {
                after == blanked
            } else {
                cache_recorded(blanked, plan.1, stdout, after)
            }
        }),
    ensures
        forall|n: Seq<char>| #[trigger] names.contains(n) ==> after.contains_key(n),
{
    let uncached = |n: Seq<char>| !cache.contains_key(n);
    let missing = names.filter(uncached);
    let blanked = blank_unfound(cache, missing, procs);
    let plan = fetch_plan(missing, procs);
    lemma_missing_names_covered(cache, missing, procs);
    if plan.0.len() == 0 {
        lemma_empty_plan_asks_nothing(missing, procs);
    }
    assert forall|n: Seq<char>| #[trigger] names.contains(n) implies after.contains_key(n) by {
        if cache.contains_key(n) {
            lemma_blank_unfound_grows(cache, missing, procs, n);
        } else {
            let k = choose|k: int| 0 <= k < names.len() && names[k] == n;
            names.lemma_filter_contains(uncached, k);
            assert(missing.contains(n));
            let i = choose|i: int| 0 <= i < missing.len() && missing[i] == n;
            assert(blanked.contains_key(missing[i]) || (exe_path_of(procs, missing[i]) is Some
                && plan.1.contains_key(exe_path_of(procs, missing[i])->Some_0)
                && plan.1[exe_path_of(procs, missing[i])->Some_0] == missing[i]));
            if !blanked.contains_key(n) {
                assert(asked_name(plan.1, n));
            }
        }
        if plan.0.len() > 0 {
            if blanked.contains_key(n) {
                match printed_icons(stdout) {
                    Some(ps) => { lemma_record_printed_grows(ps, plan.1, blanked, n); },
                    None => {},
                }
            }
        }
    }
}


// ------------------------------------------------------------------
// The script's list of paths
// ------------------------------------------------------------------

/// A path as a PowerShell literal.
pub open spec fn ps_literal(p: Seq<char>) -> Seq<char> {
    seq!['\''] + ps_quoted(p) + seq!['\'']
}

proof fn lemma_ps_quoted_concat(a: Seq<char>, b: Seq<char>)
    ensures
        ps_quoted(a + b) == ps_quoted(a) + ps_quoted(b),
    decreases b.len(),
{
    if b.len() == 0 {
        assert(a + b =~= a);
        assert(ps_quoted(a) + ps_quoted(b) =~= ps_quoted(a));
    } else {
        let bi = b.drop_last();
        lemma_ps_quoted_concat(a, bi);
        assert((a + b).drop_last() =~= a + bi);
        assert((a + b).last() == b.last());
        if b.last() == '\'' {
            assert(ps_quoted(a) + ps_quoted(bi) + seq!['\'', '\''] =~= ps_quoted(a) + (ps_quoted(bi) + seq!['\'', '\'']));
        } else {
            assert((ps_quoted(a) + ps_quoted(bi)).push(b.last()) =~= ps_quoted(a) + ps_quoted(bi).push(b.last()));
        }
    }
}

/// Quoting a path for PowerShell doubles each single quote and keeps every
/// other character: it works character by character, a quote becomes two
/// quotes, and a path without quotes is kept as it is.
pub proof fn law_ps_quoting(a: Seq<char>, b: Seq<char>, c: char)
    ensures
        ps_quoted(a + b) == ps_quoted(a) + ps_quoted(b),
        ps_quoted(seq![c]) == (if c == '\'' { seq!['\'', '\''] } else { seq![c] }),
        !a.contains('\'') ==> ps_quoted(a) == a,
    decreases a.len(),
{
    lemma_ps_quoted_concat(a, b);
    let one = seq![c];
    assert(one.drop_last() =~= Seq::<char>::empty());
    assert(one.last() == c);
    assert(ps_quoted(one.drop_last()) == Seq::<char>::empty());
    if c == '\'' {
        assert(Seq::<char>::empty() + seq!['\'', '\''] =~= seq!['\'', '\'']);
    } else {
        assert(Seq::<char>::empty().push(c) =~= seq![c]);
    }
    if !a.contains('\'') && a.len() > 0 {
        let ai = a.drop_last();
        assert(!ai.contains('\'')) by {
            if ai.contains('\'') {
                let k = choose|k: int| 0 <= k < ai.len() && ai[k] == '\'';
                assert(a[k] == '\'');
            }
        }
        law_ps_quoting(ai, b, c);
        assert(a[a.len() - 1] != '\'');
        assert(ai.push(a.last()) =~= a);
    }
}

/// The script lists every given path, in the given order, as a quoted
/// literal, the literals joined by `, `; the rest of the script is fixed.
pub proof fn law_icon_script_lists_every_path(paths: Seq<Seq<char>>)
    ensures
        icon_script_spec(paths) == icon_script_head()
            + join_lines(paths.map_values(|p: Seq<char>| ps_literal(p)), ", "@)
            + icon_script_tail(),
        ps_path_list(paths) == join_lines(paths.map_values(|p: Seq<char>| ps_literal(p)), ", "@),
    decreases paths.len(),
{
    let lits = paths.map_values(|p: Seq<char>| ps_literal(p));
    if paths.len() == 1 {
        assert(join_lines(lits, ", "@) == lits[0]);
    } else if paths.len() > 1 {
        let init = paths.drop_last();
        law_icon_script_lists_every_path(init);
        assert(lits.drop_last() =~= init.map_values(|p: Seq<char>| ps_literal(p)));
        assert(lits.last() == ps_literal(paths.last()));
        assert(ps_path_list(paths) =~= ps_path_list(init) + ", "@ + ps_literal(paths.last()));
    }
}


proof fn lemma_first_exe_at(procs: Seq<(Seq<char>, Option<Seq<char>>)>, key: Seq<char>, k: int)
    requires
        0 <= k <= procs.len(),
        forall|j: int| 0 <= j < k ==> !(lowercased((#[trigger] procs[j]).0) == key && procs[j].1 is Some),
        k < procs.len() ==> lowercased(procs[k].0) == key && procs[k].1 is Some,
    ensures
        first_exe(procs, key) == (if k < procs.len() { procs[k].1 } else { None }),
    decreases k,
{
    if k > 0 {
        let rest = procs.drop_first();
        assert(!(lowercased(procs[0].0) == key && procs[0].1 is Some));
        assert forall|j: int| 0 <= j < k - 1 implies !(lowercased((#[trigger] rest[j]).0) == key && rest[j].1 is Some) by {
            assert(rest[j] == procs[j + 1]);
        }
        if k < procs.len() {
            assert(rest[k - 1] == procs[k]);
        }
        lemma_first_exe_at(rest, key, k - 1);
    }
}

/// Finding an executable by name ignores ASCII letter case: with ASCII
/// names, the path is that of the first process whose name equals the
/// requested one ignoring case and whose path is known (nothing when that
/// path is empty, or when no such process runs).
pub proof fn law_exe_found_ignoring_case(procs: Seq<(Seq<char>, Option<Seq<char>>)>, name: Seq<char>, k: int)
    requires
        vstd::utf8::is_ascii_chars(name),
        forall|j: int| 0 <= j < procs.len() ==> vstd::utf8::is_ascii_chars((#[trigger] procs[j]).0),
        0 <= k <= procs.len(),
        forall|j: int| 0 <= j < k ==> !(crate::text::eq_ignore_ascii_case_spec((#[trigger] procs[j]).0, name) && procs[j].1 is Some),
        k < procs.len() ==> crate::text::eq_ignore_ascii_case_spec(procs[k].0, name) && procs[k].1 is Some,
    ensures
        exe_path_of(procs, name) == (if k < procs.len() && procs[k].1->Some_0.len() > 0 { procs[k].1 } else { None }),
{
    let key = lowercased(name);
    assert forall|j: int| 0 <= j < k implies !(lowercased((#[trigger] procs[j]).0) == key && procs[j].1 is Some) by {
        assert(vstd::utf8::is_ascii_chars(procs[j].0));
        assert(!(crate::text::eq_ignore_ascii_case_spec(procs[j].0, name) && procs[j].1 is Some));
    }
    if k < procs.len() {
        assert(vstd::utf8::is_ascii_chars(procs[k].0));
    }
    lemma_first_exe_at(procs, key, k);
}

} // verus!
