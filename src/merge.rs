use vstd::prelude::*;

use crate::parser::{accepted, parsed_from, read_env_file};

use crate::model::{
    as_map, entries_view, files_view, fold_file, fold_files, has_key, key_set, keys_distinct,
    lemma_merged, lemma_upsert, line_of, merged_entries, merged_map, render, upsert, EntryView,
};

verus! {

/// The position of `key` among the entries, if it is there.
pub fn find_key(entries: &Vec<(String, String)>, key: &String) -> (r: Option<usize>)
    ensures
        match r {
            Some(i) => i < entries@.len() && entries@[i as int].0@ == key@,
            None => !has_key(entries_view(entries@), key@),
        },
{
    let ghost ev = entries_view(entries@);
    let mut i: usize = 0;
    while i < entries.len()
        invariant
            i <= entries@.len(),
            ev == entries_view(entries@),
            forall|j: int| 0 <= j < i ==> #[trigger] ev[j].0 != key@,
        decreases entries@.len() - i,
    {
        if entries[i].0 == *key {
            return Some(i);
        }
        i = i + 1;
    }
    proof {
        if has_key(ev, key@) {
            let j = choose|j: int| 0 <= j < ev.len() && #[trigger] ev[j].0 == key@;
            assert(ev[j].0 != key@);
        }
    }
    None
}

/// Sets `key` to `value`: in its place where the key is present, at the end otherwise.
pub fn upsert_entry(entries: &mut Vec<(String, String)>, key: String, value: String)
    requires
        keys_distinct(entries_view(old(entries)@)),
    ensures
        entries_view(final(entries)@) == upsert(entries_view(old(entries)@), key@, value@),
        keys_distinct(entries_view(final(entries)@)),
{
    let ghost ev = entries_view(entries@);
    let ghost k = key@;
    let ghost v = value@;
    proof {
        lemma_upsert(ev, k, v);
    }
    match find_key(entries, &key) {
        Some(i) => {
            entries.set(i, (key, value));
            proof {
                let j = choose|j: int| 0 <= j < ev.len() && #[trigger] ev[j].0 == k;
                assert(ev[i as int].0 == k);
                assert(j == i);
                assert(entries_view(entries@) =~= ev.update(i as int, (k, v)));
            }
        },
        None => {
            entries.push((key, value));
            proof {
                assert(entries_view(entries@) =~= ev.push((k, v)));
            }
        },
    }
}

/// Folds the entries of `file`, in order, into `acc`, leaving alone every key that
/// `exempt` holds.
pub fn fold_file_into(
    acc: &mut Vec<(String, String)>,
    exempt: &Vec<(String, String)>,
    file: &Vec<(String, String)>,
)
    requires
        keys_distinct(entries_view(old(acc)@)),
    ensures
        entries_view(final(acc)@) == fold_file(
            entries_view(old(acc)@),
            key_set(entries_view(exempt@)),
            entries_view(file@),
        ),
        keys_distinct(entries_view(final(acc)@)),
{
    let ghost start = entries_view(acc@);
    let ghost ex = key_set(entries_view(exempt@));
    let ghost fv = entries_view(file@);
    let mut j: usize = 0;
    while j < file.len()
        invariant
            j <= file@.len(),
            fv == entries_view(file@),
            ex == key_set(entries_view(exempt@)),
            entries_view(acc@) == fold_file(start, ex, fv.take(j as int)),
            keys_distinct(entries_view(acc@)),
        decreases file@.len() - j,
    {
        assert(fv.take(j + 1).drop_last() =~= fv.take(j as int));
        let key = &file[j].0;
        let exempted = find_key(exempt, key);
        if exempted.is_none() {
            upsert_entry(acc, key.clone(), file[j].1.clone());
        } else {
            let i = exempted.unwrap();
            assert(entries_view(exempt@)[i as int].0 == key@);
        }
        j = j + 1;
    }
    assert(fv.take(j as int) =~= fv);
}

/// The lines `KEY=VALUE` of the entries, joined by newlines.
pub fn render_entries(entries: &Vec<(String, String)>) -> (r: String)
    ensures
        r@ == render(entries_view(entries@)),
{
    let ghost ev = entries_view(entries@);
    let mut out = String::new();
    let mut i: usize = 0;
    let eq_sign = "=";
    let newline = "\n";
    proof {
        reveal_strlit("=");
        reveal_strlit("\n");
        assert(eq_sign@ =~= seq!['=']);
        assert(newline@ =~= seq!['\n']);
    }
    while i < entries.len()
        invariant
            i <= entries@.len(),
            ev == entries_view(entries@),
            out@ == render(ev.take(i as int)),
            eq_sign@ == seq!['='],
            newline@ == seq!['\n'],
        decreases entries@.len() - i,
    {
        assert(ev.take(i + 1).drop_last() =~= ev.take(i as int));
        if i > 0 {
            out.append(newline);
        }
        out.append(entries[i].0.as_str());
        out.append(eq_sign);
        out.append(entries[i].1.as_str());
        proof {
            let t = ev.take(i + 1);
            assert(t.last() == ev[i as int]);
            if i == 0 {
                assert(out@ =~= line_of(t[0]));
            } else {
                assert(out@ =~= render(t.drop_last()) + seq!['\n'] + line_of(t.last()));
            }
        }
        i = i + 1;
    }
    assert(ev.take(i as int) =~= ev);
    out
}

/// Merges parsed files: the priority entries first, then each regular file in order,
/// a later file replacing the values of an earlier one, and no regular file touching
/// a key of the priority file. The result is the merged entries as `KEY=VALUE` lines.
pub fn merge_entries(files: &Vec<Vec<(String, String)>>, priority: &Vec<(String, String)>) -> (r:
    String)
    ensures
        r@ == render(merged_entries(files_view(files@), entries_view(priority@))),
        keys_distinct(merged_entries(files_view(files@), entries_view(priority@))),
        as_map(merged_entries(files_view(files@), entries_view(priority@))) == merged_map(
            files_view(files@),
            entries_view(priority@),
        ),
{
    proof {
        lemma_merged(files_view(files@), entries_view(priority@));
    }
    let ghost fsv = files_view(files@);
    let ghost pv = entries_view(priority@);
    let mut acc: Vec<(String, String)> = Vec::new();
    let none: Vec<(String, String)> = Vec::new();
    assert(entries_view(acc@) =~= Seq::<EntryView>::empty());
    assert(key_set(entries_view(none@)) =~= Set::<Seq<char>>::empty());
    fold_file_into(&mut acc, &none, priority);
    let ghost seed = entries_view(acc@);
    let mut i: usize = 0;
    while i < files.len()
        invariant
            i <= files@.len(),
            fsv == files_view(files@),
            pv == entries_view(priority@),
            seed == fold_file(Seq::empty(), Set::empty(), pv),
            entries_view(acc@) == fold_files(seed, key_set(pv), fsv.take(i as int)),
            keys_distinct(entries_view(acc@)),
        decreases files@.len() - i,
    {
        assert(fsv.take(i + 1).drop_last() =~= fsv.take(i as int));
        fold_file_into(&mut acc, priority, &files[i]);
        i = i + 1;
    }
    assert(fsv.take(i as int) =~= fsv);
    render_entries(&acc)
}

/// Why a merge failed: a source file that exists could not be parsed.
#[derive(Debug)]
pub enum MergeError {
    /// The priority file is malformed.
    Priority(dotenvy::Error),
    /// The regular file at this position in the list is malformed.
    File(usize, dotenvy::Error),
}

/// The source that stands for the priority file: none where no priority file is
/// designated.
pub open spec fn priority_source<'a>(priority: Option<Option<&'a str>>) -> Option<&'a str> {
    match priority {
        Some(source) => source,
        None => None,
    }
}

/// `out` is the merge of `parsed`, what the regular files gave, under `prio`, what
/// the priority file gave.
pub open spec fn merge_outcome(
    files: Seq<Option<&str>>,
    priority: Option<Option<&str>>,
    parsed: Seq<Seq<EntryView>>,
    prio: Seq<EntryView>,
    out: Seq<char>,
) -> bool {
    &&& parsed.len() == files.len()
    &&& forall|i: int| 0 <= i < files.len() ==> parsed_from(files[i], #[trigger] parsed[i])
    &&& parsed_from(priority_source(priority), prio)
    &&& out == render(merged_entries(parsed, prio))
}

/// The parser accepts every regular file before position `n`.
pub open spec fn files_accepted(files: Seq<Option<&str>>, n: int) -> bool {
    forall|j: int| 0 <= j < n ==> accepted(#[trigger] files[j])
}

/// No source has any content: each is absent or empty.
pub open spec fn nothing_to_read(files: Seq<Option<&str>>, priority: Option<Option<&str>>) -> bool {
    &&& forall|i: int|
        0 <= i < files.len() ==> match #[trigger] files[i] {
            None => true,
            Some(content) => content@.len() == 0,
        }
    &&& match priority_source(priority) {
        None => true,
        Some(content) => content@.len() == 0,
    }
}

/// Merges definition files given by their content (`None` for a file that does not
/// exist) under an optional priority file. The priority file is parsed first, then
/// each regular file in order; the first malformed file ends the merge with its
/// error. On success the result holds the lines `KEY=VALUE` of the merged entries.
pub fn merge_env_files(files: &[Option<&str>], priority_file: Option<Option<&str>>) -> (r: Result<
    String,
    MergeError,
>)
    ensures
        r is Ok ==> exists|parsed: Seq<Seq<EntryView>>, prio: Seq<EntryView>|
            #[trigger] merge_outcome(files@, priority_file, parsed, prio, r->Ok_0@),
        r is Ok <==> accepted(priority_source(priority_file)) && files_accepted(
            files@,
            files@.len() as int,
        ),
        r matches Err(MergeError::Priority(_)) <==> !accepted(priority_source(priority_file)),
        r matches Err(MergeError::File(i, _)) ==> {
            &&& i < files@.len()
            &&& !accepted(files@[i as int])
            &&& accepted(priority_source(priority_file))
            &&& files_accepted(files@, i as int)
        },
        r matches Err(MergeError::Priority(_)) ==> match priority_source(priority_file) {
            Some(content) => content@.len() > 0,
            None => false,
        },
        r matches Err(MergeError::File(i, _)) ==> i < files@.len() && match files@[i as int] {
            Some(content) => content@.len() > 0,
            None => false,
        },
        nothing_to_read(files@, priority_file) ==> r is Ok,
{
    let source = match priority_file {
        Some(source) => source,
        None => None,
    };
    let prio = match read_env_file(source) {
        Ok(entries) => entries,
        Err(e) => {
            return Err(MergeError::Priority(e));
        },
    };
    let mut parsed: Vec<Vec<(String, String)>> = Vec::new();
    let mut i: usize = 0;
    while i < files.len()
        invariant
            i <= files@.len(),
            parsed@.len() == i,
            forall|j: int| 0 <= j < i ==> parsed_from(files@[j], #[trigger] files_view(parsed@)[j]),
            source == priority_source(priority_file),
            accepted(source),
            files_accepted(files@, i as int),
            parsed_from(source, entries_view(prio@)),
        decreases files@.len() - i,
    {
        let source_i = files[i];
        assert(source_i == files@[i as int]);
        match read_env_file(source_i) {
            Ok(entries) => {
                let ghost before = parsed@;
                let ghost ev = entries_view(entries@);
                parsed.push(entries);
                proof {
                    assert forall|j: int| 0 <= j < i + 1 implies parsed_from(
                        files@[j],
                        #[trigger] files_view(parsed@)[j],
                    ) by {
                        if j < i {
                            assert(parsed@[j] == before[j]);
                            assert(files_view(parsed@)[j] == files_view(before)[j]);
                        } else {
                            assert(files_view(parsed@)[j] == ev);
                        }
                    }
                }
            },
            Err(e) => {
                return Err(MergeError::File(i, e));
            },
        }
        i = i + 1;
    }
    let out = merge_entries(&parsed, &prio);
    assert(files_view(parsed@).len() == files@.len());
    let r: Result<String, MergeError> = Ok(out);
    assert(merge_outcome(files@, priority_file, files_view(parsed@), entries_view(prio@), r->Ok_0@));
    r
}

} // verus!
