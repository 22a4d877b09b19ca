use vstd::prelude::*;

verus! {

/// One `KEY=VALUE` entry, as text.
pub type EntryView = (Seq<char>, Seq<char>);

/// The text of each entry of an executable entry list.
pub open spec fn entries_view(v: Seq<(String, String)>) -> Seq<EntryView> {
    v.map_values(|e: (String, String)| (e.0@, e.1@))
}

/// The text of each entry list of an executable list of entry lists.
pub open spec fn files_view(v: Seq<Vec<(String, String)>>) -> Seq<Seq<EntryView>> {
    v.map_values(|f: Vec<(String, String)>| entries_view(f@))
}

pub open spec fn has_key(s: Seq<EntryView>, k: Seq<char>) -> bool {
    exists|i: int| 0 <= i < s.len() && #[trigger] s[i].0 == k
}

pub open spec fn key_set(s: Seq<EntryView>) -> Set<Seq<char>> {
    Set::new(|k: Seq<char>| has_key(s, k))
}

pub open spec fn keys_distinct(s: Seq<EntryView>) -> bool {
    forall|i: int, j: int|
        0 <= i < s.len() && 0 <= j < s.len() && i != j ==> #[trigger] s[i].0 != #[trigger] s[j].0
}

/// What an entry list means as a mapping: a later entry of a key replaces an earlier one.
pub open spec fn as_map(s: Seq<EntryView>) -> Map<Seq<char>, Seq<char>>
    decreases s.len(),
{
    if s.len() == 0 {
        Map::empty()
    } else {
        as_map(s.drop_last()).insert(s.last().0, s.last().1)
    }
}

/// Sets key `k` to `v`: in its place where `k` is present, at the end otherwise.
pub open spec fn upsert(s: Seq<EntryView>, k: Seq<char>, v: Seq<char>) -> Seq<EntryView> {
    if has_key(s, k) {
        let i = choose|i: int| 0 <= i < s.len() && #[trigger] s[i].0 == k;
        s.update(i, (k, v))
    } else {
        s.push((k, v))
    }
}

/// Folds the entries of one file, in order, into `acc`, leaving every key of `exempt` alone.
pub open spec fn fold_file(acc: Seq<EntryView>, exempt: Set<Seq<char>>, file: Seq<EntryView>) -> Seq<
    EntryView,
>
    decreases file.len(),
{
    if file.len() == 0 {
        acc
    } else {
        let prev = fold_file(acc, exempt, file.drop_last());
        let e = file.last();
        if exempt.contains(e.0) {
            prev
        } else {
            upsert(prev, e.0, e.1)
        }
    }
}

/// Folds the files, in order, into `acc`.
pub open spec fn fold_files(
    acc: Seq<EntryView>,
    exempt: Set<Seq<char>>,
    files: Seq<Seq<EntryView>>,
) -> Seq<EntryView>
    decreases files.len(),
{
    if files.len() == 0 {
        acc
    } else {
        fold_file(fold_files(acc, exempt, files.drop_last()), exempt, files.last())
    }
}

/// The merged entries: the priority entries first, then the regular files in order,
/// where no regular file touches a key of the priority file.
pub open spec fn merged_entries(files: Seq<Seq<EntryView>>, priority: Seq<EntryView>) -> Seq<
    EntryView,
> {
    fold_files(fold_file(Seq::empty(), Set::empty(), priority), key_set(priority), files)
}

/// The line `KEY=VALUE` of one entry.
pub open spec fn line_of(e: EntryView) -> Seq<char> {
    e.0 + seq!['='] + e.1
}

/// The lines of the entries joined by newlines, with no newline at the end.
pub open spec fn render(s: Seq<EntryView>) -> Seq<char>
    decreases s.len(),
{
    if s.len() == 0 {
        Seq::empty()
    } else if s.len() == 1 {
        line_of(s[0])
    } else {
        render(s.drop_last()) + seq!['\n'] + line_of(s.last())
    }
}

/// The regular files as one mapping, a later file winning over an earlier one.
pub open spec fn later_wins(files: Seq<Seq<EntryView>>) -> Map<Seq<char>, Seq<char>>
    decreases files.len(),
{
    if files.len() == 0 {
        Map::empty()
    } else {
        later_wins(files.drop_last()).union_prefer_right(as_map(files.last()))
    }
}

/// The merged mapping: the priority file's mapping over that of the regular files.
pub open spec fn merged_map(files: Seq<Seq<EntryView>>, priority: Seq<EntryView>) -> Map<
    Seq<char>,
    Seq<char>,
> {
    later_wins(files).union_prefer_right(as_map(priority))
}

/// A key of the dotenv line format: an ASCII letter or `_`, then ASCII letters,
/// digits, `_` and `.`.
pub open spec fn is_key(k: Seq<char>) -> bool {
    &&& k.len() > 0
    &&& ('a' <= k[0] <= 'z' || 'A' <= k[0] <= 'Z' || k[0] == '_')
    &&& forall|i: int|
        0 <= i < k.len() ==> ('a' <= #[trigger] k[i] <= 'z' || 'A' <= k[i] <= 'Z' || '0' <= k[i]
            <= '9' || k[i] == '_' || k[i] == '.')
}

/// The keys of the entries, in order.
pub open spec fn keys_of(s: Seq<EntryView>) -> Seq<Seq<char>> {
    s.map_values(|e: EntryView| e.0)
}

pub open spec fn all_keys_valid(s: Seq<EntryView>) -> bool {
    forall|i: int| 0 <= i < s.len() ==> is_key(#[trigger] s[i].0)
}

// ---------------------------------------------------------------------------
// Lemmas
pub proof fn lemma_as_map_distinct(s: Seq<EntryView>)
    requires
        keys_distinct(s),
    ensures
        forall|k: Seq<char>| #[trigger] as_map(s).contains_key(k) <==> has_key(s, k),
        forall|i: int| 0 <= i < s.len() ==> #[trigger] as_map(s)[s[i].0] == s[i].1,
    decreases s.len(),
{
    if s.len() > 0 {
        let t = s.drop_last();
        assert(keys_distinct(t)) by {
            assert forall|i: int, j: int|
                0 <= i < t.len() && 0 <= j < t.len() && i != j implies #[trigger] t[i].0
                != #[trigger] t[j].0 by {
                assert(t[i] == s[i] && t[j] == s[j]);
            }
        }
        lemma_as_map_distinct(t);
        let last = s[s.len() - 1];
        assert(as_map(s) == as_map(t).insert(last.0, last.1));
        assert forall|k: Seq<char>| #[trigger] as_map(s).contains_key(k) <==> has_key(s, k) by {
            if has_key(s, k) {
                let i = choose|i: int| 0 <= i < s.len() && #[trigger] s[i].0 == k;
                if i < t.len() {
                    assert(t[i].0 == k);
                } else {
                    assert(k == last.0);
                }
            }
            if has_key(t, k) {
                let i = choose|i: int| 0 <= i < t.len() && #[trigger] t[i].0 == k;
                assert(s[i].0 == k);
            }
        }
        assert forall|i: int| 0 <= i < s.len() implies #[trigger] as_map(s)[s[i].0] == s[i].1 by {
            if i < t.len() {
                assert(t[i] == s[i]);
                assert(s[i].0 != s.last().0);
            }
        }
    }
}

pub proof fn lemma_upsert(s: Seq<EntryView>, k: Seq<char>, v: Seq<char>)
    requires
        keys_distinct(s),
    ensures
        keys_distinct(upsert(s, k, v)),
        as_map(upsert(s, k, v)) == as_map(s).insert(k, v),
{
    let u = upsert(s, k, v);
    if has_key(s, k) {
        let i = choose|i: int| 0 <= i < s.len() && #[trigger] s[i].0 == k;
        assert forall|a: int, b: int|
            0 <= a < u.len() && 0 <= b < u.len() && a != b implies #[trigger] u[a].0
            != #[trigger] u[b].0 by {
            assert(u[a].0 == s[a].0 && u[b].0 == s[b].0);
        }
    } else {
        assert forall|a: int, b: int|
            0 <= a < u.len() && 0 <= b < u.len() && a != b implies #[trigger] u[a].0
            != #[trigger] u[b].0 by {
            if a < s.len() && b < s.len() {
                assert(u[a] == s[a] && u[b] == s[b]);
            } else if a < s.len() {
                assert(u[a] == s[a]);
            } else {
                assert(u[b] == s[b]);
            }
        }
    }
    lemma_as_map_distinct(s);
    lemma_as_map_distinct(u);
    assert forall|key: Seq<char>| #[trigger] as_map(u).contains_key(key) <==> as_map(s).insert(k, v).contains_key(key) by {
        if has_key(u, key) {
            let j = choose|j: int| 0 <= j < u.len() && #[trigger] u[j].0 == key;
            if key != k {
                assert(s[j].0 == key);
            }
        }
        if has_key(s, key) {
            let j = choose|j: int| 0 <= j < s.len() && #[trigger] s[j].0 == key;
            assert(u[j].0 == key);
        }
        if key == k {
            if has_key(s, k) {
                let i = choose|i: int| 0 <= i < s.len() && #[trigger] s[i].0 == k;
                assert(u[i].0 == k);
            } else {
                assert(u[s.len() as int].0 == k);
            }
        }
    }
    assert forall|key: Seq<char>| #[trigger] as_map(u).contains_key(key) implies as_map(u)[key] == as_map(s).insert(k, v)[key] by {
        let j = choose|j: int| 0 <= j < u.len() && #[trigger] u[j].0 == key;
        if key != k {
            assert(u[j] == s[j]);
        }
    }
    assert(as_map(u) =~= as_map(s).insert(k, v));
}

pub proof fn lemma_fold_file(acc: Seq<EntryView>, exempt: Set<Seq<char>>, file: Seq<EntryView>)
    requires
        keys_distinct(acc),
    ensures
        keys_distinct(fold_file(acc, exempt, file)),
        as_map(fold_file(acc, exempt, file)) == as_map(acc).union_prefer_right(
            as_map(file).remove_keys(exempt),
        ),
    decreases file.len(),
{
    if file.len() > 0 {
        let f = file.drop_last();
        let e = file.last();
        lemma_fold_file(acc, exempt, f);
        let prev = fold_file(acc, exempt, f);
        if exempt.contains(e.0) {
            assert(as_map(file).remove_keys(exempt) =~= as_map(f).remove_keys(exempt));
        } else {
            lemma_upsert(prev, e.0, e.1);
            assert(as_map(acc).union_prefer_right(as_map(file).remove_keys(exempt)) =~= as_map(
                acc,
            ).union_prefer_right(as_map(f).remove_keys(exempt)).insert(e.0, e.1));
        }
    }
}

pub proof fn lemma_fold_files(acc: Seq<EntryView>, exempt: Set<Seq<char>>, files: Seq<Seq<EntryView>>)
    requires
        keys_distinct(acc),
    ensures
        keys_distinct(fold_files(acc, exempt, files)),
        as_map(fold_files(acc, exempt, files)) == as_map(acc).union_prefer_right(
            later_wins(files).remove_keys(exempt),
        ),
    decreases files.len(),
{
    if files.len() > 0 {
        let fs = files.drop_last();
        lemma_fold_files(acc, exempt, fs);
        lemma_fold_file(fold_files(acc, exempt, fs), exempt, files.last());
        assert(as_map(acc).union_prefer_right(later_wins(files).remove_keys(exempt)) =~= as_map(
            acc,
        ).union_prefer_right(later_wins(fs).remove_keys(exempt)).union_prefer_right(
            as_map(files.last()).remove_keys(exempt),
        ));
    }
}

pub proof fn lemma_key_set(s: Seq<EntryView>)
    ensures
        key_set(s) == as_map(s).dom(),
    decreases s.len(),
{
    if s.len() > 0 {
        let t = s.drop_last();
        lemma_key_set(t);
        assert forall|k: Seq<char>| #[trigger] key_set(s).contains(k) <==> key_set(t).insert(s.last().0).contains(k) by {
            if has_key(s, k) {
                let i = choose|i: int| 0 <= i < s.len() && #[trigger] s[i].0 == k;
                if i < t.len() {
                    assert(t[i].0 == k);
                }
            }
            if has_key(t, k) {
                let i = choose|i: int| 0 <= i < t.len() && #[trigger] t[i].0 == k;
                assert(s[i].0 == k);
            }
            if k == s.last().0 {
                assert(s[s.len() - 1].0 == k);
            }
        }
        assert(key_set(s) =~= key_set(t).insert(s.last().0));
        assert(as_map(s).dom() =~= as_map(t).dom().insert(s.last().0));
    }
}

/// The merged entries hold each key once, and mean the merged mapping.
pub proof fn lemma_merged(files: Seq<Seq<EntryView>>, priority: Seq<EntryView>)
    ensures
        keys_distinct(merged_entries(files, priority)),
        as_map(merged_entries(files, priority)) == merged_map(files, priority),
{
    let seed = fold_file(Seq::empty(), Set::empty(), priority);
    lemma_fold_file(Seq::empty(), Set::empty(), priority);
    assert(as_map(Seq::<EntryView>::empty()) == Map::<Seq<char>, Seq<char>>::empty());
    assert(as_map(seed) =~= as_map(priority));
    lemma_fold_files(seed, key_set(priority), files);
    lemma_key_set(priority);
    assert(as_map(seed).union_prefer_right(later_wins(files).remove_keys(key_set(priority)))
        =~= merged_map(files, priority));
}

} // verus!
