//! Per-module log level overrides, matched by longest module-path prefix.

use vstd::prelude::*;
use vstd::string::*;
use crate::level::{LogLevel, level_from_name, rank};
use crate::text::{chars_of, find_char, first_index, matches_at, push_chars, same_chars, trim, trim_bounds};

verus! {

/// `prefix` names the module `module` or one of its parents: `module` is
/// `prefix` itself or begins with `prefix` followed by `::`.
pub open spec fn module_matches(module: Seq<char>, prefix: Seq<char>) -> bool {
    module == prefix || (prefix.len() + 2 <= module.len() && module.take(prefix.len() as int)
        == prefix && module[prefix.len() as int] == ':' && module[prefix.len() + 1int] == ':')
}

/// `p` is an override of `levels` that matches `module`, and no matching
/// override is longer.
pub open spec fn longest_match(
    levels: Map<Seq<char>, LogLevel>,
    module: Seq<char>,
    p: Seq<char>,
) -> bool {
    &&& levels.contains_key(p)
    &&& module_matches(module, p)
    &&& forall|q: Seq<char>|
        levels.contains_key(q) && #[trigger] module_matches(module, q) ==> q.len() <= p.len()
}

/// The level that the overrides `levels` set for `module`: that of the
/// longest matching prefix, or `None` when no override matches.
pub open spec fn effective_level(levels: Map<Seq<char>, LogLevel>, module: Seq<char>) -> Option<
    LogLevel,
> {
    if exists|p: Seq<char>| longest_match(levels, module, p) {
        Some(levels[choose|p: Seq<char>| longest_match(levels, module, p)])
    } else {
        None
    }
}

/// Whether a message at `level` from `module` passes the overrides: it
/// does when the effective level lets it through, or when no override
/// matches (the global level then decides).
pub open spec fn passes(levels: Map<Seq<char>, LogLevel>, module: Seq<char>, level: LogLevel) -> bool {
    match effective_level(levels, module) {
        Some(l) => rank(level) >= rank(l),
        None => true,
    }
}

/// What one `module=level` entry of a filter string does to the overrides:
/// the entry is trimmed, split at its first `=`, both sides trimmed, and
/// the override set when the right side names a level; otherwise nothing.
pub open spec fn apply_entry(levels: Map<Seq<char>, LogLevel>, entry: Seq<char>) -> Map<
    Seq<char>,
    LogLevel,
> {
    let e = trim(entry);
    match first_index(e, '=') {
        None => levels,
        Some(i) => match level_from_name(trim(e.skip(i + 1))) {
            Some(l) => levels.insert(trim(e.take(i)), l),
            None => levels,
        },
    }
}

/// The overrides after applying, from left to right, every entry of the
/// comma-separated filter string `s`.
pub open spec fn apply_entries(levels: Map<Seq<char>, LogLevel>, s: Seq<char>) -> Map<
    Seq<char>,
    LogLevel,
>
    decreases s.len(),
{
    match first_index(s, ',') {
        None => apply_entry(levels, s),
        Some(i) => if 0 <= i < s.len() {
            apply_entries(apply_entry(levels, s.take(i)), s.skip(i + 1))
        } else {
            levels
        },
    }
}

/// No key occurs twice among the entries.
pub open spec fn keys_unique(e: Seq<(String, LogLevel)>) -> bool {
    forall|i: int, j: int| 0 <= i < j < e.len() ==> e[i].0@ != e[j].0@
}

/// The map that the entries hold, later entries winning.
pub open spec fn entries_map(e: Seq<(String, LogLevel)>) -> Map<Seq<char>, LogLevel>
    decreases e.len(),
{
    if e.len() == 0 {
        Map::empty()
    } else {
        entries_map(e.drop_last()).insert(e.last().0@, e.last().1)
    }
}

/// With unique keys, the map holds exactly the entries.
proof fn lemma_entries_map(e: Seq<(String, LogLevel)>)
    requires
        keys_unique(e),
    ensures
        entries_map(e).dom().finite(),
        entries_map(e).len() == e.len(),
        forall|i: int|
            0 <= i < e.len() ==> #[trigger] entries_map(e).contains_key(e[i].0@) && entries_map(
                e,
            )[e[i].0@] == e[i].1,
        forall|k: Seq<char>|
            #[trigger] entries_map(e).contains_key(k) ==> exists|i: int|
                0 <= i < e.len() && e[i].0@ == k,
    decreases e.len(),
{
    if e.len() > 0 {
        let d = e.drop_last();
        assert(keys_unique(d));
        lemma_entries_map(d);
        let m = entries_map(d);
        assert(!m.contains_key(e.last().0@)) by {
            if m.contains_key(e.last().0@) {
                let i = choose|i: int| 0 <= i < d.len() && d[i].0@ == e.last().0@;
                assert(e[i].0@ == e[e.len() - 1].0@);
            }
        }
        assert forall|k: Seq<char>| #[trigger] entries_map(e).contains_key(k) implies exists|i: int|
            0 <= i < e.len() && e[i].0@ == k by {
            if k != e.last().0@ {
                let i = choose|i: int| 0 <= i < d.len() && d[i].0@ == k;
                assert(e[i].0@ == k);
            } else {
                assert(e[e.len() - 1].0@ == k);
            }
        }
        assert forall|i: int| 0 <= i < e.len() implies #[trigger] entries_map(e).contains_key(
            e[i].0@,
        ) && entries_map(e)[e[i].0@] == e[i].1 by {
            if i < e.len() - 1 {
                assert(d[i] == e[i]);
            }
        }
    }
}

/// Two unique-key entry lists with the same keys and levels hold the same map.
proof fn lemma_entries_map_ext(e1: Seq<(String, LogLevel)>, m: Map<Seq<char>, LogLevel>)
    requires
        keys_unique(e1),
        forall|i: int| 0 <= i < e1.len() ==> #[trigger] m.contains_key(e1[i].0@) && m[e1[i].0@] == e1[i].1,
        forall|k: Seq<char>| #[trigger] m.contains_key(k) ==> exists|i: int| 0 <= i < e1.len() && e1[i].0@ == k,
    ensures
        entries_map(e1) == m,
{
    lemma_entries_map(e1);
    assert forall|k: Seq<char>| #[trigger] m.contains_key(k) implies entries_map(e1).contains_key(k)
        && entries_map(e1)[k] == m[k] by {
        let i = choose|i: int| 0 <= i < e1.len() && e1[i].0@ == k;
        assert(m.contains_key(e1[i].0@) && m[e1[i].0@] == e1[i].1);
        assert(entries_map(e1).contains_key(e1[i].0@) && entries_map(e1)[e1[i].0@] == e1[i].1);
    }
    assert forall|k: Seq<char>| #[trigger] entries_map(e1).contains_key(k) implies m.contains_key(k) by {
        let i = choose|i: int| 0 <= i < e1.len() && e1[i].0@ == k;
    }
    assert(entries_map(e1) =~= m);
}

/// Two overrides that match the same module with prefixes of equal length
/// are the same prefix.
pub proof fn law_match_unique(module: Seq<char>, p: Seq<char>, q: Seq<char>)
    requires
        module_matches(module, p),
        module_matches(module, q),
        p.len() == q.len(),
    ensures
        p == q,
{
    if module != p && module != q {
        assert(p =~= q);
    }
}

/// The longest matching override, when there is one, decides.
pub proof fn law_longest_prefix_wins(
    levels: Map<Seq<char>, LogLevel>,
    module: Seq<char>,
    p: Seq<char>,
)
    requires
        longest_match(levels, module, p),
    ensures
        effective_level(levels, module) == Some(levels[p]),
{
    let c = choose|c: Seq<char>| longest_match(levels, module, c);
    assert(longest_match(levels, module, c));
    assert(module_matches(module, p));
    assert(c.len() <= p.len() && p.len() <= c.len());
    law_match_unique(module, p, c);
}

/// After an override is set for a module, that module gets exactly that
/// level back.
pub proof fn law_set_then_get(levels: Map<Seq<char>, LogLevel>, module: Seq<char>, level: LogLevel)
    ensures
        effective_level(levels.insert(module, level), module) == Some(level),
{
    let m = levels.insert(module, level);
    assert forall|q: Seq<char>| m.contains_key(q) && #[trigger] module_matches(module, q) implies q.len()
        <= module.len() by {
    }
    law_longest_prefix_wins(m, module, module);
}

/// Removing a module's override undoes setting it, when the module had
/// none before.
pub proof fn law_remove_undoes_set(
    levels: Map<Seq<char>, LogLevel>,
    module: Seq<char>,
    level: LogLevel,
)
    requires
        !levels.contains_key(module),
    ensures
        levels.insert(module, level).remove(module) == levels,
{
    assert(levels.insert(module, level).remove(module) =~= levels);
}

/// The path of a submodule: `prefix`, `::` and the rest.
pub open spec fn submodule(prefix: Seq<char>, rest: Seq<char>) -> Seq<char> {
    prefix + seq![':', ':'] + rest
}

/// A prefix matches exactly the module itself and its submodules at any
/// depth: `p::s` for every `s`, however many `::` it holds.
pub proof fn law_match_any_depth(module: Seq<char>, p: Seq<char>)
    ensures
        module_matches(module, p) <==> (module == p || exists|s: Seq<char>|
            module == #[trigger] submodule(p, s)),
{
    if module != p && module_matches(module, p) {
        let s = module.skip(p.len() + 2int);
        assert(module =~= submodule(p, s));
    }
    if exists|s: Seq<char>| module == #[trigger] submodule(p, s) {
        let s = choose|s: Seq<char>| module == #[trigger] submodule(p, s);
        assert(module.take(p.len() as int) =~= p);
        assert(module[p.len() as int] == ':');
        assert(module[p.len() + 1int] == ':');
    }
}

/// The override of a module applies to every module below it, at any
/// depth, when no other override matches.
pub proof fn law_override_reaches_submodules(p: Seq<char>, s: Seq<char>, level: LogLevel)
    ensures
        effective_level(map![p => level], submodule(p, s)) == Some(level),
{
    let levels = map![p => level];
    let module = submodule(p, s);
    law_match_any_depth(module, p);
    assert(module_matches(module, p));
    assert forall|q: Seq<char>| levels.contains_key(q) && #[trigger] module_matches(module, q) implies q.len()
        <= p.len() by {
        assert(q == p);
    }
    law_longest_prefix_wins(levels, module, p);
}

/// Without overrides, every message passes (the global level decides).
pub proof fn law_no_override_passes(module: Seq<char>, level: LogLevel)
    ensures
        passes(Map::empty(), module, level),
{
}

/// Per-module log level overrides.
///
/// A module with an override of its own, or a parent module (`a` for
/// `a::b::c`) with one, gets the level of the longest such prefix; other
/// modules defer to the global level.
#[derive(Debug)]
pub struct LogFilter {
    module_levels: Vec<(String, LogLevel)>,
}

impl View for LogFilter {
    type V = Map<Seq<char>, LogLevel>;

    /// The overrides: module prefix to level.
    closed spec fn view(&self) -> Map<Seq<char>, LogLevel> {
        entries_map(self.module_levels@)
    }
}

impl LogFilter {
    #[verifier::type_invariant]
    spec fn inv(self) -> bool {
        keys_unique(self.module_levels@)
    }
}

impl Clone for LogFilter {
    fn clone(&self) -> (r: Self)
        ensures
            r@ == self@,
            r@.dom().finite(),
    {
        proof {
            use_type_invariant(self);
            lemma_entries_map(self.module_levels@);
        }
        let mut v: Vec<(String, LogLevel)> = Vec::new();
        let mut i: usize = 0;
        while i < self.module_levels.len()
            invariant
                i <= self.module_levels@.len(),
                v@ == self.module_levels@.take(i as int),
        decreases self.module_levels@.len() - i,
        {
            let k = self.module_levels[i].0.clone();
            v.push((k, self.module_levels[i].1));
            assert(v@ =~= self.module_levels@.take(i + 1));
            i = i + 1;
        }
        assert(v@ =~= self.module_levels@);
        LogFilter { module_levels: v }
    }
}

impl Default for LogFilter {
    fn default() -> (r: Self)
        ensures
            r@ == Map::<Seq<char>, LogLevel>::empty(),
            r@.dom().finite(),
    {
        LogFilter { module_levels: Vec::new() }
    }
}

/// Whether `prefix` (as characters) matches `module`.
fn key_matches(module: &Vec<char>, prefix: &Vec<char>) -> (r: bool)
    ensures
        r == module_matches(module@, prefix@),
{
    if same_chars(module, prefix) {
        return true;
    }
    let pl = prefix.len();
    if pl > module.len() || module.len() - pl < 2 {
        return false;
    }
    let r = matches_at(module, 0, prefix) && module[pl] == ':' && module[pl + 1] == ':';
    proof {
        assert(module@.subrange(0, pl as int) =~= module@.take(pl as int));
    }
    r
}

impl LogFilter {
    /// An empty filter.
    pub fn new() -> (r: Self)
        ensures
            r@ == Map::<Seq<char>, LogLevel>::empty(),
            r@.dom().finite(),
    {
        Self::default()
    }

    /// A filter built from a string `module1=level,module2=level`: entries
    /// are separated by commas and trimmed; an entry without `=`, or whose
    /// level does not parse, is skipped; a later entry for the same module
    /// wins.
    pub fn from_env(env_str: &str) -> (r: Self)
        ensures
            r@ == apply_entries(Map::empty(), env_str@),
            r@.dom().finite(),
    {
        let chars = chars_of(env_str);
        let mut filter = LogFilter::new();
        let mut start: usize = 0;
        let len = chars.len();
        assert(chars@.skip(0) =~= chars@);
        loop
            invariant
                start <= len == chars@.len(),
                chars@ == env_str@,
                apply_entries(Map::empty(), env_str@) == apply_entries(
                    filter@,
                    chars@.skip(start as int),
                ),
            decreases len - start,
        {
            let ghost rest = chars@.skip(start as int);
            assert(chars@.subrange(start as int, len as int) =~= rest);
            match find_char(&chars, start, len, ',') {
                Some(k) => {
                    assert(rest.take(k as int) =~= chars@.subrange(start as int, start + k));
                    assert(rest.skip(k + 1) =~= chars@.skip(start + k + 1));
                    filter.apply_segment(&chars, start, start + k);
                    start = start + k + 1;
                },
                None => {
                    filter.apply_segment(&chars, start, len);
                    return filter;
                },
            }
        }
    }

    /// Applies one `module=level` entry, `chars[from..to]`.
    fn apply_segment(&mut self, chars: &Vec<char>, from: usize, to: usize)
        requires
            from <= to <= chars@.len(),
        ensures
            final(self)@ == apply_entry(old(self)@, chars@.subrange(from as int, to as int)),
            final(self)@.dom().finite(),
    {
        proof {
            use_type_invariant(&*self);
            lemma_entries_map(self.module_levels@);
        }
        let ghost seg = chars@.subrange(from as int, to as int);
        let (a, b) = trim_bounds(chars, from, to);
        let ghost e = chars@.subrange(a as int, b as int);
        match find_char(chars, a, b, '=') {
            None => {},
            Some(k) => {
                let (ma, mb) = trim_bounds(chars, a, a + k);
                let (la, lb) = trim_bounds(chars, a + k + 1, b);
                assert(e.take(k as int) =~= chars@.subrange(a as int, a + k));
                assert(e.skip(k + 1) =~= chars@.subrange(a + k + 1, b as int));
                let mut level_text = String::new();
                push_chars(&mut level_text, chars, la, lb);
                assert(level_text@ =~= chars@.subrange(la as int, lb as int));
                match LogLevel::parse(level_text.as_str()) {
                    Ok(level) => {
                        let mut module = String::new();
                        push_chars(&mut module, chars, ma, mb);
                        assert(module@ =~= chars@.subrange(ma as int, mb as int));
                        self.set_module_level(module.as_str(), level);
                    },
                    Err(()) => {},
                }
            },
        }
    }

    /// Index of the entry for `key`, if any.
    fn find(&self, key: &Vec<char>) -> (r: Option<usize>)
        ensures
            match r {
                Some(i) => i < self.module_levels@.len() && self.module_levels@[i as int].0@ == key@,
                None => forall|i: int|
                    0 <= i < self.module_levels@.len() ==> self.module_levels@[i].0@ != key@,
            },
    {
        let mut i: usize = 0;
        while i < self.module_levels.len()
            invariant
                i <= self.module_levels@.len(),
                forall|j: int| 0 <= j < i ==> self.module_levels@[j].0@ != key@,
            decreases self.module_levels@.len() - i,
        {
            let kc = chars_of(self.module_levels[i].0.as_str());
            if same_chars(&kc, key) {
                return Some(i);
            }
            i = i + 1;
        }
        None
    }

    /// Sets the level of a module prefix (such as `"network"` or
    /// `"myapp::http"`), replacing any earlier override of it.
    pub fn set_module_level(&mut self, module: &str, level: LogLevel)
        ensures
            final(self)@ == old(self)@.insert(module@, level),
            final(self)@.dom().finite(),
    {
        proof {
            use_type_invariant(&*self);
            lemma_entries_map(self.module_levels@);
        }
        let key = chars_of(module);
        let found = self.find(&key);
        let mut v: Vec<(String, LogLevel)> = Vec::new();
        std::mem::swap(&mut v, &mut self.module_levels);
        let ghost old_v = v@;
        let ghost target = old(self)@.insert(module@, level);
        match found {
            Some(i) => {
                v.set(i, (String::from_str(module), level));
                proof {
                    assert forall|a: int, b: int| 0 <= a < b < v@.len() implies v@[a].0@ != v@[b].0@ by {
                        if a != i && b != i {
                            assert(old_v[a].0@ != old_v[b].0@);
                        } else if a == i {
                            assert(old_v[i as int].0@ != old_v[b].0@);
                        } else {
                            assert(old_v[a].0@ != old_v[i as int].0@);
                        }
                    }
                    assert forall|k: Seq<char>| #[trigger] target.contains_key(k) implies exists|j: int|
                        0 <= j < v@.len() && v@[j].0@ == k by {
                        if k != module@ {
                            let j = choose|j: int| 0 <= j < old_v.len() && old_v[j].0@ == k;
                            assert(v@[j] == old_v[j]);
                        } else {
                            assert(v@[i as int].0@ == k);
                        }
                    }
                    assert forall|j: int| 0 <= j < v@.len() implies #[trigger] target.contains_key(
                        v@[j].0@,
                    ) && target[v@[j].0@] == v@[j].1 by {
                        if j != i {
                            assert(v@[j] == old_v[j]);
                            assert(old_v[j].0@ != old_v[i as int].0@);
                        }
                    }
                    lemma_entries_map_ext(v@, target);
                }
            },
            None => {
                v.push((String::from_str(module), level));
                proof {
                    assert(v@.drop_last() =~= old_v);
                    assert forall|a: int, b: int| 0 <= a < b < v@.len() implies v@[a].0@ != v@[b].0@ by {
                        if b == v@.len() - 1 {
                            assert(v@[a] == old_v[a]);
                        } else {
                            assert(v@[a] == old_v[a]);
                            assert(v@[b] == old_v[b]);
                        }
                    }
                }
            },
        }
        self.module_levels = v;
    }

    /// Removes the override of a module prefix, if there is one.
    pub fn remove_module(&mut self, module: &str)
        ensures
            final(self)@ == old(self)@.remove(module@),
            final(self)@.dom().finite(),
    {
        proof {
            use_type_invariant(&*self);
            lemma_entries_map(self.module_levels@);
        }
        let key = chars_of(module);
        let found = self.find(&key);
        match found {
            None => {
                proof {
                    assert(!old(self)@.contains_key(module@)) by {
                        if old(self)@.contains_key(module@) {
                            let j = choose|j: int| 0 <= j < self.module_levels@.len() && self.module_levels@[j].0@ == module@;
                        }
                    }
                    assert(old(self)@.remove(module@) =~= old(self)@);
                }
            },
            Some(i) => {
                let mut v: Vec<(String, LogLevel)> = Vec::new();
                std::mem::swap(&mut v, &mut self.module_levels);
                let ghost old_v = v@;
                let ghost target = old(self)@.remove(module@);
                v.remove(i);
                proof {
                    assert forall|a: int, b: int| 0 <= a < b < v@.len() implies v@[a].0@ != v@[b].0@ by {
                        let oa = if a < i { a } else { a + 1 };
                        let ob = if b < i { b } else { b + 1 };
                        assert(v@[a] == old_v[oa]);
                        assert(v@[b] == old_v[ob]);
                    }
                    assert forall|k: Seq<char>| #[trigger] target.contains_key(k) implies exists|j: int|
                        0 <= j < v@.len() && v@[j].0@ == k by {
                        let j = choose|j: int| 0 <= j < old_v.len() && old_v[j].0@ == k;
                        if j < i {
                            assert(v@[j] == old_v[j]);
                        } else {
                            assert(j != i);
                            assert(v@[j - 1] == old_v[j]);
                        }
                    }
                    assert forall|j: int| 0 <= j < v@.len() implies #[trigger] target.contains_key(
                        v@[j].0@,
                    ) && target[v@[j].0@] == v@[j].1 by {
                        let oj = if j < i { j } else { j + 1 };
                        assert(v@[j] == old_v[oj]);
                        assert(old_v[oj].0@ != old_v[i as int].0@);
                        assert(entries_map(old_v).contains_key(old_v[oj].0@));
                        assert(entries_map(old_v)[old_v[oj].0@] == old_v[oj].1);
                    }
                    lemma_entries_map_ext(v@, target);
                }
                self.module_levels = v;
            },
        }
    }

    /// The level set for `module` by the longest matching prefix (the module
    /// itself, or a parent such as `a::b` for `a::b::c`); `None` when no
    /// override matches and the global level applies.
    pub fn get_effective_level(&self, module: &str) -> (r: Option<LogLevel>)
        ensures
            r == effective_level(self@, module@),
    {
        proof {
            use_type_invariant(self);
            lemma_entries_map(self.module_levels@);
        }
        let ghost e = self.module_levels@;
        let mc = chars_of(module);
        let mut best: Option<(usize, usize)> = None;
        let mut i: usize = 0;
        while i < self.module_levels.len()
            invariant
                i <= e.len(),
                e == self.module_levels@,
                mc@ == module@,
                match best {
                    None => forall|j: int| 0 <= j < i ==> !module_matches(module@, #[trigger] e[j].0@),
                    Some((len, idx)) => idx < i && module_matches(module@, e[idx as int].0@) && len
                        == e[idx as int].0@.len() && forall|j: int|
                        0 <= j < i && module_matches(module@, #[trigger] e[j].0@) ==> e[j].0@.len()
                            <= len,
                },
            decreases e.len() - i,
        {
            let kc = chars_of(self.module_levels[i].0.as_str());
            if key_matches(&mc, &kc) {
                let better = match best {
                    None => true,
                    Some((best_len, _)) => kc.len() > best_len,
                };
                if better {
                    best = Some((kc.len(), i));
                }
            }
            i = i + 1;
        }
        match best {
            None => {
                proof {
                    assert forall|p: Seq<char>| !longest_match(self@, module@, p) by {
                        if longest_match(self@, module@, p) {
                            let j = choose|j: int| 0 <= j < e.len() && e[j].0@ == p;
                        }
                    }
                }
                None
            },
            Some((_, idx)) => {
                proof {
                    let p = e[idx as int].0@;
                    assert forall|q: Seq<char>| self@.contains_key(q) && #[trigger] module_matches(
                        module@,
                        q,
                    ) implies q.len() <= p.len() by {
                        let j = choose|j: int| 0 <= j < e.len() && e[j].0@ == q;
                    }
                    law_longest_prefix_wins(self@, module@, p);
                }
                Some(self.module_levels[idx].1)
            },
        }
    }

    /// Whether a message at `level` from `module` passes the filter: the
    /// effective level decides, and with no matching override it passes
    /// (the global level then decides).
    pub fn should_log(&self, module: &str, level: LogLevel) -> (r: bool)
        ensures
            r == passes(self@, module@, level),
    {
        match self.get_effective_level(module) {
            Some(effective_level) => effective_level.should_log(level),
            None => true,
        }
    }

    /// Removes every override.
    pub fn clear(&mut self)
        ensures
            final(self)@ == Map::<Seq<char>, LogLevel>::empty(),
            final(self)@.dom().finite(),
    {
        self.module_levels = Vec::new();
    }

    /// The number of overrides.
    pub fn len(&self) -> (r: usize)
        ensures
            r == self@.len(),
            self@.dom().finite(),
    {
        proof {
            use_type_invariant(self);
            lemma_entries_map(self.module_levels@);
        }
        self.module_levels.len()
    }

    /// Whether there are no overrides.
    pub fn is_empty(&self) -> (r: bool)
        ensures
            r == (self@ == Map::<Seq<char>, LogLevel>::empty()),
    {
        proof {
            use_type_invariant(self);
            lemma_entries_map(self.module_levels@);
            if self.module_levels@.len() > 0 {
                assert(self@.contains_key(self.module_levels@[0].0@));
            } else {
                assert(self@ =~= Map::<Seq<char>, LogLevel>::empty());
            }
        }
        self.module_levels.len() == 0
    }
}

} // verus!
