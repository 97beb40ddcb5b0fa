//! Symbols by name and by file, in memory.

use vstd::prelude::*;
use crate::list_map::ListMap;
use crate::strings::list_contains;
use crate::text;
use crate::text::str_eq;

verus! {

broadcast use {
    vstd::string::group_string_axioms,
    vstd::seq::group_seq_axioms,
    vstd::map::group_map_axioms,
};

/// A symbol.
#[derive(Debug)]
pub struct SymbolCacheEntry {
    pub handle_id: String,
    pub file_path: String,
    pub node_type: i32,
    pub start_byte: usize,
    pub end_byte: usize,
    pub line_start: usize,
    pub line_end: usize,
    pub token_count: usize,
    pub preview: String,
}

impl Clone for SymbolCacheEntry {
    fn clone(&self) -> (r: SymbolCacheEntry)
        ensures
            r == *self,
    {
        SymbolCacheEntry {
            handle_id: self.handle_id.clone(),
            file_path: self.file_path.clone(),
            node_type: self.node_type,
            start_byte: self.start_byte,
            end_byte: self.end_byte,
            line_start: self.line_start,
            line_end: self.line_end,
            token_count: self.token_count,
            preview: self.preview.clone(),
        }
    }
}

/// The symbols that are not of the given file.
pub open spec fn without_file(entries: Seq<SymbolCacheEntry>, path: Seq<char>) -> Seq<
    SymbolCacheEntry,
>
    decreases entries.len(),
{
    if entries.len() == 0 {
        Seq::empty()
    } else {
        let before = without_file(entries.drop_last(), path);
        if entries.last().file_path@ == path {
            before
        } else {
            before.push(entries.last())
        }
    }
}

/// Whether a symbol of the given file is in a list.
pub open spec fn has_file(entries: Seq<SymbolCacheEntry>, path: Seq<char>) -> bool {
    exists|i: int| 0 <= i < entries.len() && (#[trigger] entries[i]).file_path@ == path
}

/// What a symbol cache holds.
pub struct CacheState {
    /// The symbols of each name in lower case, the oldest first.
    pub by_name: Map<Seq<char>, Seq<SymbolCacheEntry>>,
    /// The names of each file.
    pub by_file: Map<Seq<char>, Seq<Seq<char>>>,
}

impl CacheState {
    /// The two sides agree: a file has a name exactly where a symbol of the file
    /// has it. No list is empty.
    pub open spec fn inv(self) -> bool {
        &&& forall|name: Seq<char>| #[trigger]
            self.by_name.dom().contains(name) ==> self.by_name[name].len() > 0
        &&& forall|path: Seq<char>| #[trigger]
            self.by_file.dom().contains(path) ==> self.by_file[path].len() > 0
        &&& forall|name: Seq<char>, path: Seq<char>| #[trigger]
            self.file_has(path, name) <==> #[trigger] self.name_in(name, path)
    }

    /// Whether a file has a name.
    pub open spec fn file_has(self, path: Seq<char>, name: Seq<char>) -> bool {
        self.by_file.dom().contains(path) && self.by_file[path].contains(name)
    }

    /// Whether a name has a symbol of a file.
    pub open spec fn name_in(self, name: Seq<char>, path: Seq<char>) -> bool {
        self.by_name.dom().contains(name) && has_file(self.by_name[name], path)
    }

    /// The symbols of a name.
    pub open spec fn symbols(self, name: Seq<char>) -> Seq<SymbolCacheEntry> {
        if self.by_name.dom().contains(name) {
            self.by_name[name]
        } else {
            Seq::empty()
        }
    }

    /// The names of a file.
    pub open spec fn names(self, path: Seq<char>) -> Seq<Seq<char>> {
        if self.by_file.dom().contains(path) {
            self.by_file[path]
        } else {
            Seq::empty()
        }
    }

    /// The state after the addition of a symbol.
    pub open spec fn add(self, name: Seq<char>, entry: SymbolCacheEntry) -> CacheState {
        let path = entry.file_path@;
        CacheState {
            by_name: self.by_name.insert(name, self.symbols(name).push(entry)),
            by_file: self.by_file.insert(
                path,
                if self.names(path).contains(name) {
                    self.names(path)
                } else {
                    self.names(path).push(name)
                },
            ),
        }
    }

    /// The state after the addition of symbols, one after the other.
    pub open spec fn add_all(self, entries: Seq<(String, SymbolCacheEntry)>) -> CacheState
        decreases entries.len(),
    {
        if entries.len() == 0 {
            self
        } else {
            self.add_all(entries.drop_last()).add(entries.last().0@, entries.last().1)
        }
    }

    /// The state after the removal of a file.
    pub open spec fn remove_file(self, path: Seq<char>) -> CacheState {
        CacheState {
            by_name: Map::new(
                |n: Seq<char>|
                    self.by_name.dom().contains(n) && without_file(self.by_name[n], path).len()
                        > 0,
                |n: Seq<char>| without_file(self.by_name[n], path),
            ),
            by_file: self.by_file.remove(path),
        }
    }
}

proof fn lemma_without_file(entries: Seq<SymbolCacheEntry>, path: Seq<char>)
    ensures
        !has_file(entries, path) ==> without_file(entries, path) == entries,
        !has_file(without_file(entries, path), path),
        forall|other: Seq<char>|
            other != path ==> (#[trigger] has_file(without_file(entries, path), other)
                <==> has_file(entries, other)),
    decreases entries.len(),
{
    if entries.len() > 0 {
        let rest = entries.drop_last();
        lemma_without_file(rest, path);
        let before = without_file(rest, path);
        let all = without_file(entries, path);
        let last = entries.last();
        assert(entries[entries.len() - 1] == last);
        if !has_file(entries, path) {
            assert(!has_file(rest, path)) by {
                if has_file(rest, path) {
                    let i = choose|i: int|
                        0 <= i < rest.len() && (#[trigger] rest[i]).file_path@ == path;
                    assert(entries[i].file_path@ == path);
                }
            }
            assert(rest.push(last) =~= entries);
        }
        if has_file(all, path) {
            let i = choose|i: int| 0 <= i < all.len() && (#[trigger] all[i]).file_path@ == path;
            if i < before.len() {
                assert(before[i].file_path@ == path);
            }
        }
        assert forall|other: Seq<char>| other != path implies (#[trigger] has_file(all, other)
            <==> has_file(entries, other)) by {
            if has_file(all, other) {
                let i = choose|i: int|
                    0 <= i < all.len() && (#[trigger] all[i]).file_path@ == other;
                if i < before.len() {
                    assert(before[i].file_path@ == other);
                    assert(has_file(before, other));
                    let k = choose|k: int|
                        0 <= k < rest.len() && (#[trigger] rest[k]).file_path@ == other;
                    assert(entries[k].file_path@ == other);
                }
            }
            if has_file(entries, other) {
                let k = choose|k: int|
                    0 <= k < entries.len() && (#[trigger] entries[k]).file_path@ == other;
                if k < rest.len() {
                    assert(rest[k].file_path@ == other);
                    assert(has_file(before, other));
                    let i = choose|i: int|
                        0 <= i < before.len() && (#[trigger] before[i]).file_path@ == other;
                    assert(all[i].file_path@ == other);
                } else {
                    assert(all[all.len() - 1] == last);
                }
            }
        }
    }
}

proof fn lemma_add_inv(s: CacheState, name: Seq<char>, entry: SymbolCacheEntry)
    requires
        s.inv(),
    ensures
        s.add(name, entry).inv(),
{
    let end = s.add(name, entry);
    let path = entry.file_path@;
    assert forall|n: Seq<char>, p: Seq<char>| #[trigger] end.file_has(p, n) <==> #[trigger] end.name_in(
        n,
        p,
    ) by {
        assert(s.file_has(p, n) <==> s.name_in(n, p));
        let held = s.symbols(name);
        let grown = held.push(entry);
        assert(grown[grown.len() - 1] == entry);
        if n == name {
            if has_file(held, p) {
                let i = choose|i: int| 0 <= i < held.len() && (#[trigger] held[i]).file_path@ == p;
                assert(grown[i].file_path@ == p);
            }
            if has_file(grown, p) && p != path {
                let i = choose|i: int|
                    0 <= i < grown.len() && (#[trigger] grown[i]).file_path@ == p;
                assert(held[i].file_path@ == p);
            }
        }
        if p == path {
            let names = s.names(path);
            let more = names.push(name);
            assert(more[more.len() - 1] == name);
            if names.contains(n) {
                let i = choose|i: int| 0 <= i < names.len() && names[i] == n;
                assert(more[i] == n);
            }
            if more.contains(n) && n != name {
                let i = choose|i: int| 0 <= i < more.len() && more[i] == n;
                assert(names[i] == n);
            }
        }
    }
}

proof fn lemma_remove_inv(s: CacheState, path: Seq<char>)
    requires
        s.inv(),
    ensures
        s.remove_file(path).inv(),
{
    let end = s.remove_file(path);
    assert forall|n: Seq<char>, p: Seq<char>| #[trigger] end.file_has(p, n) <==> #[trigger] end.name_in(
        n,
        p,
    ) by {
        assert(s.file_has(p, n) <==> s.name_in(n, p));
        if s.by_name.dom().contains(n) {
            lemma_without_file(s.by_name[n], path);
            let kept = without_file(s.by_name[n], path);
            if p != path && has_file(s.by_name[n], p) {
                assert(has_file(kept, p));
                assert(kept.len() > 0);
            }
        }
    }
}

/// Symbols by name in lower case and by file.
pub struct SymbolCache {
    by_name: ListMap<SymbolCacheEntry>,
    by_file: ListMap<String>,
}

impl SymbolCache {
    /// What the cache holds.
    pub closed spec fn state(self) -> CacheState {
        CacheState {
            by_name: self.by_name.contents(),
            by_file: Map::new(
                |f: Seq<char>| self.by_file.contents().dom().contains(f),
                |f: Seq<char>| text::views(self.by_file.contents()[f]),
            ),
        }
    }

    pub closed spec fn inv(self) -> bool {
        self.by_name.inv() && self.by_file.inv() && self.state().inv()
    }

    pub fn new() -> (r: SymbolCache)
        ensures
            r.inv(),
            r.state().by_name == Map::<Seq<char>, Seq<SymbolCacheEntry>>::empty(),
            r.state().by_file == Map::<Seq<char>, Seq<Seq<char>>>::empty(),
    {
        let r: SymbolCache = SymbolCache { by_name: ListMap::new(), by_file: ListMap::new() };
        assert(r.state().by_file =~= Map::<Seq<char>, Seq<Seq<char>>>::empty());
        r
    }

    /// The symbols of a name in lower case.
    pub fn get(&self, name_lower: &str) -> (r: Option<&Vec<SymbolCacheEntry>>)
        requires
            self.inv(),
        ensures
            match r {
                Some(list) => self.state().by_name.dom().contains(name_lower@) && list@
                    == self.state().by_name[name_lower@],
                None => !self.state().by_name.dom().contains(name_lower@),
            },
    {
        self.by_name.get(name_lower)
    }

    /// The names of a file.
    pub fn names_in_file(&self, path: &str) -> (r: Option<&Vec<String>>)
        requires
            self.inv(),
        ensures
            match r {
                Some(list) => self.state().by_file.dom().contains(path@) && text::views(list@)
                    == self.state().by_file[path@],
                None => !self.state().by_file.dom().contains(path@),
            },
    {
        self.by_file.get(path)
    }

    /// Adds a symbol.
    fn add_entry(&mut self, name_lower: &str, entry: SymbolCacheEntry)
        requires
            old(self).inv(),
        ensures
            final(self).inv(),
            final(self).state() == old(self).state().add(name_lower@, entry),
    {
        let ghost start = self.state();
        let ghost files = self.by_file.contents();
        let path: String = entry.file_path.clone();
        let known: bool = match self.by_file.get(path.as_str()) {
            Some(names) => list_contains(names, name_lower),
            None => false,
        };
        if !known {
            let name: String = name_lower.to_owned();
            proof {
                let held = if files.dom().contains(path@) {
                    files[path@]
                } else {
                    Seq::empty()
                };
                text::lemma_views_push(held, name);
                assert(text::views(Seq::<String>::empty()) =~= Seq::<Seq<char>>::empty());
            }
            self.by_file.push(path.as_str(), name);
        }
        self.by_name.push(name_lower, entry);
        proof {
            let end = start.add(name_lower@, entry);
            assert(self.state().by_name =~= end.by_name);
            assert(self.state().by_file =~= end.by_file);
            lemma_add_inv(start, name_lower@, entry);
        }
    }

    /// Adds symbols, one after the other.
    pub fn add_to_symbol_cache(&mut self, entries: &Vec<(String, SymbolCacheEntry)>)
        requires
            old(self).inv(),
        ensures
            final(self).inv(),
            final(self).state() == old(self).state().add_all(entries@),
    {
        let ghost start = self.state();
        let mut i: usize = 0;
        assert(entries@.take(0) =~= Seq::<(String, SymbolCacheEntry)>::empty());
        while i < entries.len()
            invariant
                i <= entries@.len(),
                self.inv(),
                self.state() == start.add_all(entries@.take(i as int)),
            decreases entries@.len() - i,
        {
            proof {
                assert(entries@.take(i + 1).drop_last() =~= entries@.take(i as int));
                assert(entries@.take(i + 1).last() == entries@[i as int]);
            }
            self.add_entry(entries[i].0.as_str(), entries[i].1.clone());
            i = i + 1;
        }
        assert(entries@.take(entries@.len() as int) =~= entries@);
    }

    /// Removes the symbols of a file.
    pub fn remove_file_from_symbol_cache(&mut self, path: &str)
        requires
            old(self).inv(),
        ensures
            final(self).inv(),
            final(self).state() == old(self).state().remove_file(path@),
    {
        let ghost start = self.state();
        let names: Vec<String> = self.by_file.take(path);
        let ghost all = text::views(names@);
        proof {
            assert(all =~= start.names(path@));
            assert(self.by_name.contents() =~= partly_removed(start.by_name, path@, all.take(0)));
        }
        let mut i: usize = 0;
        while i < names.len()
            invariant
                i <= names@.len(),
                all == text::views(names@),
                self.by_name.inv(),
                self.by_file.inv(),
                self.by_file.contents() == old(self).by_file.contents().remove(path@),
                start == old(self).state(),
                start.inv(),
                self.by_name.contents() == partly_removed(
                    start.by_name,
                    path@,
                    all.take(i as int),
                ),
            decreases names@.len() - i,
        {
            let name: &str = names[i].as_str();
            let ghost before = self.by_name.contents();
            let list: Vec<SymbolCacheEntry> = self.by_name.take(name);
            let kept: Vec<SymbolCacheEntry> = keep_others(&list, path);
            self.by_name.put(name, kept);
            proof {
                let seen = all.take(i as int);
                let now = all.take(i + 1);
                assert(now =~= seen.push(name@));
                assert forall|n: Seq<char>| now.contains(n) <==> seen.contains(n) || n == name@ by {
                    if now.contains(n) {
                        let k = choose|k: int| 0 <= k < now.len() && now[k] == n;
                        if k < i {
                            assert(seen[k] == n);
                        }
                    }
                    if seen.contains(n) {
                        let k = choose|k: int| 0 <= k < seen.len() && seen[k] == n;
                        assert(now[k] == n);
                    }
                    assert(now[i as int] == name@);
                }
                if start.by_name.dom().contains(name@) {
                    lemma_without_file(start.by_name[name@], path@);
                    lemma_without_file(without_file(start.by_name[name@], path@), path@);
                }
                assert(without_file(Seq::<SymbolCacheEntry>::empty(), path@).len() == 0);
                assert(self.by_name.contents() =~= partly_removed(start.by_name, path@, now));
            }
            i = i + 1;
        }
        proof {
            assert(all.take(names@.len() as int) =~= all);
            let end = start.remove_file(path@);
            assert forall|n: Seq<char>| #[trigger] start.by_name.dom().contains(n) && !all.contains(
                n,
            ) implies without_file(start.by_name[n], path@) == start.by_name[n] by {
                lemma_without_file(start.by_name[n], path@);
                assert(!start.file_has(path@, n));
                assert(!start.name_in(n, path@));
            }
            assert(self.state().by_name =~= end.by_name);
            assert(self.state().by_file =~= end.by_file);
            lemma_remove_inv(start, path@);
        }
    }

    /// Puts the symbols of a file in the place of those that it had.
    pub fn replace_file(&mut self, path: &str, entries: &Vec<(String, SymbolCacheEntry)>)
        requires
            old(self).inv(),
        ensures
            final(self).inv(),
            final(self).state() == old(self).state().remove_file(path@).add_all(entries@),
    {
        self.remove_file_from_symbol_cache(path);
        self.add_to_symbol_cache(entries);
    }

    /// Removes every symbol.
    pub fn clear(&mut self)
        ensures
            final(self).inv(),
            final(self).state().by_name == Map::<Seq<char>, Seq<SymbolCacheEntry>>::empty(),
            final(self).state().by_file == Map::<Seq<char>, Seq<Seq<char>>>::empty(),
    {
        self.by_name.clear();
        self.by_file.clear();
        assert(self.state().by_file =~= Map::<Seq<char>, Seq<Seq<char>>>::empty());
    }
}

/// The symbols by name, where those of a file are removed under the given names
/// only.
spec fn partly_removed(
    by_name: Map<Seq<char>, Seq<SymbolCacheEntry>>,
    path: Seq<char>,
    names: Seq<Seq<char>>,
) -> Map<Seq<char>, Seq<SymbolCacheEntry>> {
    Map::new(
        |n: Seq<char>|
            by_name.dom().contains(n) && (names.contains(n) ==> without_file(
                by_name[n],
                path,
            ).len() > 0),
        |n: Seq<char>|
            if names.contains(n) {
                without_file(by_name[n], path)
            } else {
                by_name[n]
            },
    )
}

fn keep_others(entries: &Vec<SymbolCacheEntry>, path: &str) -> (r: Vec<SymbolCacheEntry>)
    ensures
        r@ == without_file(entries@, path@),
{
    let mut kept: Vec<SymbolCacheEntry> = Vec::new();
    let mut i: usize = 0;
    assert(kept@ =~= without_file(entries@.take(0), path@));
    while i < entries.len()
        invariant
            i <= entries@.len(),
            kept@ == without_file(entries@.take(i as int), path@),
        decreases entries@.len() - i,
    {
        proof {
            assert(entries@.take(i + 1).drop_last() =~= entries@.take(i as int));
            assert(entries@.take(i + 1).last() == entries@[i as int]);
        }
        if !str_eq(entries[i].file_path.as_str(), path) {
            kept.push(entries[i].clone());
        }
        i = i + 1;
    }
    assert(entries@.take(entries@.len() as int) =~= entries@);
    kept
}

/// A symbol that was added is found under its name, after those that were there.
pub proof fn law_added_is_found(s: CacheState, name: Seq<char>, entry: SymbolCacheEntry)
    ensures
        s.add(name, entry).symbols(name) == s.symbols(name).push(entry),
        forall|other: Seq<char>|
            other != name ==> #[trigger] s.add(name, entry).symbols(other) == s.symbols(other),
{
}

/// Once a file is removed, no symbol of it is found, and every other symbol is
/// found as before, in its order.
pub proof fn law_removed_is_gone(s: CacheState, path: Seq<char>, name: Seq<char>)
    requires
        s.inv(),
    ensures
        s.remove_file(path).symbols(name) == without_file(s.symbols(name), path),
        !has_file(s.remove_file(path).symbols(name), path),
        !s.remove_file(path).by_file.dom().contains(path),
{
    lemma_without_file(s.symbols(name), path);
    assert(s.remove_file(path).symbols(name) =~= without_file(s.symbols(name), path));
}

} // verus!
