use vstd::prelude::*;

use crate::merge::{merge_outcome, nothing_to_read};
use crate::model::{
    as_map, fold_file, fold_files, key_set, keys_distinct, keys_of, later_wins, lemma_key_set,
    lemma_merged, merged_entries, merged_map, render, EntryView,
};
use crate::parser::parsed_from;

verus! {

proof fn lemma_fold_files_append(
    acc: Seq<EntryView>,
    exempt: Set<Seq<char>>,
    a: Seq<Seq<EntryView>>,
    b: Seq<Seq<EntryView>>,
)
    ensures
        fold_files(acc, exempt, a + b) == fold_files(fold_files(acc, exempt, a), exempt, b),
    decreases b.len(),
{
    if b.len() == 0 {
        assert(a + b =~= a);
    } else {
        lemma_fold_files_append(acc, exempt, a, b.drop_last());
        assert((a + b).drop_last() =~= a + b.drop_last());
        assert((a + b).last() == b.last());
    }
}

proof fn lemma_fold_files_empty(acc: Seq<EntryView>, exempt: Set<Seq<char>>, files: Seq<Seq<EntryView>>)
    requires
        forall|i: int| 0 <= i < files.len() ==> (#[trigger] files[i]).len() == 0,
    ensures
        fold_files(acc, exempt, files) == acc,
    decreases files.len(),
{
    if files.len() > 0 {
        lemma_fold_files_empty(acc, exempt, files.drop_last());
        assert(files[files.len() - 1].len() == 0);
    }
}

/// Parsing is fixed by the text as far as keys go: two parses of the same text
/// yield the same keys in the same order. (Values may differ where they
/// substitute from the process environment.)
pub proof fn law_parse_keys_fixed_by_text(
    content: &str,
    first: Seq<EntryView>,
    second: Seq<EntryView>,
)
    requires
        parsed_from(Some(content), first),
        parsed_from(Some(content), second),
    ensures
        keys_of(first) == keys_of(second),
{
}

/// The later regular file wins: with no priority file, merging a file whose keys are
/// `a` and `b` with a later file whose keys are `b` and `c` gives exactly the keys
/// `a`, `b` and `c`, with `a` from the first file and `b` and `c` from the second.
pub proof fn law_later_file_wins(
    f1: Seq<EntryView>,
    f2: Seq<EntryView>,
    a: Seq<char>,
    b: Seq<char>,
    c: Seq<char>,
)
    requires
        a != b,
        b != c,
        a != c,
        as_map(f1).dom() == set![a, b],
        as_map(f2).dom() == set![b, c],
    ensures
        keys_distinct(merged_entries(seq![f1, f2], Seq::empty())),
        as_map(merged_entries(seq![f1, f2], Seq::empty())).dom() == set![a, b, c],
        as_map(merged_entries(seq![f1, f2], Seq::empty()))[a] == as_map(f1)[a],
        as_map(merged_entries(seq![f1, f2], Seq::empty()))[b] == as_map(f2)[b],
        as_map(merged_entries(seq![f1, f2], Seq::empty()))[c] == as_map(f2)[c],
{
    let files = seq![f1, f2];
    lemma_merged(files, Seq::empty());
    assert(files.drop_last() =~= seq![f1]);
    assert(seq![f1].drop_last() =~= Seq::<Seq<EntryView>>::empty());
    assert(as_map(Seq::<EntryView>::empty()) =~= Map::empty());
    assert(seq![f1].last() == f1);
    assert(later_wins(Seq::<Seq<EntryView>>::empty()) == Map::<Seq<char>, Seq<char>>::empty());
    assert(later_wins(seq![f1]) =~= as_map(f1));
    let m = merged_map(files, Seq::empty());
    assert(m.dom() =~= set![a, b, c]);
}

/// The priority file wins: a key that the priority file defines takes its value from
/// the priority file, whatever the regular files say and in whichever order they come.
pub proof fn law_priority_wins(
    f1: Seq<EntryView>,
    f2: Seq<EntryView>,
    priority: Seq<EntryView>,
    b: Seq<char>,
)
    requires
        as_map(priority).contains_key(b),
    ensures
        as_map(merged_entries(seq![f1, f2], priority))[b] == as_map(priority)[b],
        as_map(merged_entries(seq![f2, f1], priority))[b] == as_map(priority)[b],
{
    lemma_merged(seq![f1, f2], priority);
    lemma_merged(seq![f2, f1], priority);
}

/// A file that does not exist contributes nothing: merging a list with such a file at
/// any position gives the same entries, in the same order, as the list without it.
pub proof fn law_missing_file_is_omitted(
    files: Seq<Seq<EntryView>>,
    priority: Seq<EntryView>,
    j: int,
)
    requires
        0 <= j <= files.len(),
    ensures
        merged_entries(files.insert(j, Seq::empty()), priority) == merged_entries(files, priority),
{
    let seed = fold_file(Seq::empty(), Set::empty(), priority);
    let ex = key_set(priority);
    let head = files.take(j);
    let tail = files.skip(j);
    let missing: Seq<Seq<EntryView>> = seq![Seq::empty()];
    assert(files.insert(j, Seq::empty()) =~= head + (missing + tail));
    assert(files =~= head + tail);
    lemma_fold_files_append(seed, ex, head, missing + tail);
    lemma_fold_files_append(seed, ex, head, tail);
    let mid = fold_files(seed, ex, head);
    lemma_fold_files_append(mid, ex, missing, tail);
    assert(missing.drop_last() =~= Seq::<Seq<EntryView>>::empty());
    assert(missing.last() == Seq::<EntryView>::empty());
    assert(fold_files(mid, ex, missing.drop_last()) == mid);
    assert(fold_file(mid, ex, Seq::<EntryView>::empty()) == mid);
    assert(fold_files(mid, ex, missing) == mid);
}

/// A priority file that is not given, or that does not exist, exempts no key: the
/// merge is then that of the regular files alone, a later file winning, and the two
/// cases give the same outcomes.
pub proof fn law_absent_priority(
    files: Seq<Option<&str>>,
    parsed: Seq<Seq<EntryView>>,
    prio: Seq<EntryView>,
    out: Seq<char>,
)
    ensures
        merged_entries(parsed, Seq::empty()) == fold_files(Seq::empty(), Set::empty(), parsed),
        merged_map(parsed, Seq::empty()) == later_wins(parsed),
        merge_outcome(files, Some(None), parsed, prio, out) == merge_outcome(
            files,
            None,
            parsed,
            prio,
            out,
        ),
        merge_outcome(files, None, parsed, prio, out) ==> prio.len() == 0,
{
    let e = Seq::<EntryView>::empty();
    assert(fold_file(Seq::empty(), Set::empty(), e) == e);
    lemma_key_set(e);
    assert(as_map(e) =~= Map::empty());
    assert(key_set(e) =~= Set::empty());
    assert(merged_map(parsed, e) =~= later_wins(parsed));
}

/// Nothing to merge gives the empty text: where every file and the priority file
/// give no entry, or no source has content at all, the result is empty.
pub proof fn law_nothing_to_merge(
    files: Seq<Option<&str>>,
    priority: Option<Option<&str>>,
    parsed: Seq<Seq<EntryView>>,
    prio: Seq<EntryView>,
    out: Seq<char>,
)
    ensures
        (forall|i: int| 0 <= i < parsed.len() ==> (#[trigger] parsed[i]).len() == 0) && prio.len()
            == 0 ==> render(merged_entries(parsed, prio)).len() == 0,
        nothing_to_read(files, priority) && merge_outcome(files, priority, parsed, prio, out)
            ==> out.len() == 0,
{
    if prio.len() == 0 {
        let e = Seq::<EntryView>::empty();
        assert(prio == e);
        assert(fold_file(Seq::empty(), Set::empty(), e) == e);
        if forall|i: int| 0 <= i < parsed.len() ==> (#[trigger] parsed[i]).len() == 0 {
            lemma_fold_files_empty(e, key_set(e), parsed);
        }
    }
    if nothing_to_read(files, priority) && merge_outcome(files, priority, parsed, prio, out) {
        assert forall|i: int| 0 <= i < parsed.len() implies (#[trigger] parsed[i]).len() == 0 by {
            assert(files[i] matches Some(c) ==> c@.len() == 0);
        }
    }
}

} // verus!
