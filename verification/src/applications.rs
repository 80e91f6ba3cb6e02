//! The application index: from what the descriptors of the system say to a
//! list of launchable applications, one per display name, in name order.

use vstd::prelude::*;
use crate::cache::{is_fresh, json_rows, json_text, load_from_cache, save_to_cache};
use crate::state::{opt_text, records_of, ApplicationInfo, ApplicationRecord};
use crate::text::{
    lemma_text_lt_asymmetric, lemma_text_lt_transitive, place_of_str, text_lt, Place,
};

verus! {

/// What one application descriptor says, as far as the index cares.
#[derive(Clone, Debug)]
pub struct DesktopEntry {
    /// Display name, if the descriptor has one.
    pub name: Option<String>,
    /// Command line, if the descriptor has one.
    pub command: Option<String>,
    /// Icon name, if the descriptor has one.
    pub icon: Option<String>,
    /// File that the icon name resolved to, if it resolved.
    pub icon_path: Option<String>,
    /// Whether the descriptor asks to be shown in a launcher.
    pub should_show: bool,
}

/// The record that a descriptor stands for. A descriptor stands for one
/// when it asks to be shown and has both a display name and a command.
pub open spec fn candidate(entry: DesktopEntry) -> Option<ApplicationRecord> {
    if entry.should_show && entry.name is Some && entry.command is Some {
        Some(
            ApplicationRecord {
                name: entry.name->0@,
                exec_command: entry.command->0@,
                icon_ref: opt_text(entry.icon),
                icon_resolved_path: opt_text(entry.icon_path),
            },
        )
    } else {
        None
    }
}

/// The records that a list of descriptors stands for, position by position.
pub open spec fn candidates(entries: Seq<DesktopEntry>) -> Seq<Option<ApplicationRecord>> {
    Seq::new(entries.len(), |i: int| candidate(entries[i]))
}

/// A list of records, each of them a candidate.
pub open spec fn all_candidates(records: Seq<ApplicationRecord>) -> Seq<Option<ApplicationRecord>> {
    Seq::new(records.len(), |i: int| Some(records[i]))
}

/// The names go up strictly from each record to the next, so no name
/// stands twice.
pub open spec fn sorted_by_name(index: Seq<ApplicationRecord>) -> bool {
    forall|p: int, q: int|
        0 <= p < q < index.len() ==> text_lt((#[trigger] index[p]).name, (#[trigger] index[q]).name)
}

/// Some record of `index` has the name `name`.
pub open spec fn has_name(index: Seq<ApplicationRecord>, name: Seq<char>) -> bool {
    exists|p: int| 0 <= p < index.len() && (#[trigger] index[p]).name == name
}

/// Position `i` holds a record, and no earlier position holds one of the same name.
pub open spec fn first_of_name(found: Seq<Option<ApplicationRecord>>, i: int) -> bool {
    &&& 0 <= i < found.len()
    &&& found[i] is Some
    &&& forall|j: int|
        0 <= j < i && (#[trigger] found[j]) is Some ==> found[j]->0.name != found[i]->0.name
}

/// `record` is, among the candidates, the first one of its name.
pub open spec fn is_first_candidate(
    found: Seq<Option<ApplicationRecord>>,
    record: ApplicationRecord,
) -> bool {
    exists|i: int| #[trigger] first_of_name(found, i) && found[i] == Some(record)
}

/// `index` is the index made from `found`: it is in name order, each of its
/// records is the first candidate of its name, and every candidate finds
/// its name in it.
pub open spec fn is_index_of(
    found: Seq<Option<ApplicationRecord>>,
    index: Seq<ApplicationRecord>,
) -> bool {
    &&& sorted_by_name(index)
    &&& forall|p: int| 0 <= p < index.len() ==> #[trigger] is_first_candidate(found, index[p])
    &&& forall|i: int|
        0 <= i < found.len() && found[i] is Some ==> #[trigger] has_name(
            index,
            found[i]->0.name,
        )
}

/// In an index every name has one place only.
pub proof fn lemma_names_are_unique(index: Seq<ApplicationRecord>, p: int, q: int)
    requires
        sorted_by_name(index),
        0 <= p < index.len(),
        0 <= q < index.len(),
        index[p].name == index[q].name,
    ensures
        p == q,
{
    if p < q {
        lemma_text_lt_asymmetric(index[p].name, index[q].name);
    }
    if q < p {
        lemma_text_lt_asymmetric(index[q].name, index[p].name);
    }
}

/// For every candidate the index holds exactly one record of its name, and
/// that record is the first candidate of the name: later ones of the same
/// name leave no trace.
pub proof fn lemma_one_record_per_name(
    found: Seq<Option<ApplicationRecord>>,
    index: Seq<ApplicationRecord>,
    i: int,
) -> (p: int)
    requires
        is_index_of(found, index),
        0 <= i < found.len(),
        found[i] is Some,
    ensures
        0 <= p < index.len(),
        index[p].name == found[i]->0.name,
        forall|q: int|
            0 <= q < index.len() && (#[trigger] index[q]).name == found[i]->0.name ==> q == p,
        exists|f: int| 0 <= f <= i && #[trigger] first_of_name(found, f) && found[f] == Some(index[p]),
{
    assert(has_name(index, found[i]->0.name));
    let p = choose|p: int| 0 <= p < index.len() && (#[trigger] index[p]).name == found[i]->0.name;
    assert forall|q: int|
        0 <= q < index.len() && (#[trigger] index[q]).name == found[i]->0.name implies q == p by {
        lemma_names_are_unique(index, p, q);
    }
    assert(is_first_candidate(found, index[p]));
    let f = choose|f: int| #[trigger] first_of_name(found, f) && found[f] == Some(index[p]);
    if f > i {
        assert(found[i] is Some);
    }
    assert(0 <= f <= i && first_of_name(found, f) && found[f] == Some(index[p]));
    p
}

/// Two indexes made from the same candidates hold the same records in the same order.
pub proof fn lemma_index_is_determined(
    found: Seq<Option<ApplicationRecord>>,
    first: Seq<ApplicationRecord>,
    second: Seq<ApplicationRecord>,
)
    requires
        is_index_of(found, first),
        is_index_of(found, second),
    ensures
        first == second,
{
    assert forall|p: int| 0 <= p < first.len() implies second.contains(#[trigger] first[p]) by {
        lemma_same_record_elsewhere(found, first, second, p);
    }
    assert forall|q: int| 0 <= q < second.len() implies first.contains(#[trigger] second[q]) by {
        lemma_same_record_elsewhere(found, second, first, q);
    }
    lemma_sorted_equal(first, second);
}

proof fn lemma_same_record_elsewhere(
    found: Seq<Option<ApplicationRecord>>,
    here: Seq<ApplicationRecord>,
    there: Seq<ApplicationRecord>,
    p: int,
)
    requires
        is_index_of(found, here),
        is_index_of(found, there),
        0 <= p < here.len(),
    ensures
        there.contains(here[p]),
{
    assert(is_first_candidate(found, here[p]));
    let i = choose|i: int| #[trigger] first_of_name(found, i) && found[i] == Some(here[p]);
    let q = lemma_one_record_per_name(found, there, i);
    let f = choose|f: int|
        0 <= f <= i && #[trigger] first_of_name(found, f) && found[f] == Some(there[q]);
    if f < i {
        assert(found[f] is Some);
    }
    assert(there[q] == here[p]);
}

proof fn lemma_sorted_equal(first: Seq<ApplicationRecord>, second: Seq<ApplicationRecord>)
    requires
        sorted_by_name(first),
        sorted_by_name(second),
        forall|p: int| 0 <= p < first.len() ==> second.contains(#[trigger] first[p]),
        forall|q: int| 0 <= q < second.len() ==> first.contains(#[trigger] second[q]),
    ensures
        first == second,
    decreases first.len(),
{
    if first.len() == 0 {
        if second.len() > 0 {
            assert(first.contains(second[0]));
        }
        assert(first =~= second);
    } else {
        let n = first.len() - 1;
        assert(second.contains(first[n]));
        let q = choose|q: int| 0 <= q < second.len() && second[q] == first[n];
        let m = second.len() - 1;
        assert(first.contains(second[m]));
        let p = choose|p: int| 0 <= p < first.len() && first[p] == second[m];
        if q < m {
            assert(text_lt(second[q].name, second[m].name));
            lemma_text_lt_asymmetric(second[q].name, second[m].name);
            if p < n {
                assert(text_lt(first[p].name, first[n].name));
            }
            assert(false);
        }
        assert(second[m] == first[n]);
        let a = first.drop_last();
        let b = second.drop_last();
        assert forall|x: int| 0 <= x < a.len() implies b.contains(#[trigger] a[x]) by {
            assert(second.contains(first[x]));
            let y = choose|y: int| 0 <= y < second.len() && second[y] == first[x];
            if y == m {
                assert(text_lt(first[x].name, first[n].name));
                lemma_text_lt_asymmetric(first[x].name, first[n].name);
            }
            assert(b[y] == a[x]);
        }
        assert forall|y: int| 0 <= y < b.len() implies a.contains(#[trigger] b[y]) by {
            assert(first.contains(second[y]));
            let x = choose|x: int| 0 <= x < first.len() && first[x] == second[y];
            if x == n {
                assert(text_lt(second[y].name, second[m].name));
                lemma_text_lt_asymmetric(second[y].name, second[m].name);
            }
            assert(a[x] == b[y]);
        }
        assert(sorted_by_name(a)) by {
            assert forall|x: int, y: int| 0 <= x < y < a.len() implies text_lt(
                (#[trigger] a[x]).name,
                (#[trigger] a[y]).name,
            ) by {
                assert(text_lt(first[x].name, first[y].name));
            }
        }
        assert(sorted_by_name(b)) by {
            assert forall|x: int, y: int| 0 <= x < y < b.len() implies text_lt(
                (#[trigger] b[x]).name,
                (#[trigger] b[y]).name,
            ) by {
                assert(text_lt(second[x].name, second[y].name));
            }
        }
        lemma_sorted_equal(a, b);
        assert(first =~= a.push(first[n]));
        assert(second =~= b.push(second[m]));
    }
}

/// An index is the index of its own records: making an index again from
/// what an index holds changes nothing.
pub proof fn lemma_index_of_itself(index: Seq<ApplicationRecord>)
    requires
        sorted_by_name(index),
    ensures
        is_index_of(all_candidates(index), index),
{
    let found = all_candidates(index);
    assert forall|p: int| 0 <= p < index.len() implies #[trigger] is_first_candidate(
        found,
        index[p],
    ) by {
        assert forall|j: int| 0 <= j < p && (#[trigger] found[j]) is Some implies found[j]->0.name
            != found[p]->0.name by {
            assert(text_lt(index[j].name, index[p].name));
            lemma_text_lt_asymmetric(index[j].name, index[p].name);
        }
        assert(first_of_name(found, p) && found[p] == Some(index[p]));
    }
    assert forall|i: int| 0 <= i < found.len() && found[i] is Some implies #[trigger] has_name(
        index,
        found[i]->0.name,
    ) by {
        assert(index[i].name == found[i]->0.name);
    }
}

/// An index that is made into an index again stays as it is. So what was
/// written to the cache from an index is, once read back, that same index.
pub proof fn lemma_reload_gives_same_index(
    written: Seq<ApplicationRecord>,
    loaded: Seq<ApplicationRecord>,
)
    requires
        sorted_by_name(written),
        is_index_of(all_candidates(written), loaded),
    ensures
        loaded == written,
{
    lemma_index_of_itself(written);
    lemma_index_is_determined(all_candidates(written), written, loaded);
}

/// The application index.
pub struct Applications {}

impl Applications {
    /// Puts `record` into `index` at the place that its name gives it,
    /// unless the index already holds a record of that name.
    fn insert(index: &mut Vec<ApplicationInfo>, record: ApplicationInfo) -> (added: bool)
        requires
            sorted_by_name(records_of(old(index)@)),
        ensures
            sorted_by_name(records_of(final(index)@)),
            added == !has_name(records_of(old(index)@), record.name@),
            !added ==> records_of(final(index)@) == records_of(old(index)@),
            added ==> exists|at: int|
                0 <= at <= old(index).len() && records_of(final(index)@) == #[trigger] records_of(
                    old(index)@,
                ).insert(at, record@),
    {
        let ghost before = records_of(index@);
        let ghost shown = record@;
        let mut at: usize = 0;
        let mut stop: bool = false;
        while at < index.len() && !stop
            invariant
                at <= index.len(),
                *index == *old(index),
                before == records_of(index@),
                shown == record@,
                sorted_by_name(before),
                forall|p: int| 0 <= p < at ==> text_lt((#[trigger] before[p]).name, shown.name),
                stop ==> at < index.len() && text_lt(shown.name, before[at as int].name),
            decreases index.len() - at, if stop { 0int } else { 1int },
        {
            match place_of_str(index[at].name.as_str(), record.name.as_str()) {
                Place::Before => {
                    assert(before[at as int].name == index@[at as int].name@);
                    at += 1;
                },
                Place::Same => {
                    assert(before[at as int].name == shown.name);
                    return false;
                },
                Place::After => {
                    assert(before[at as int].name == index@[at as int].name@);
                    stop = true;
                },
            }
        }
        proof {
            assert forall|p: int| 0 <= p < before.len() implies (#[trigger] before[p]).name
                != shown.name by {
                if p < at {
                    lemma_text_lt_asymmetric(before[p].name, shown.name);
                } else {
                    if p > at {
                        assert(text_lt(before[at as int].name, before[p].name));
                        lemma_text_lt_transitive(shown.name, before[at as int].name, before[p].name);
                    }
                    lemma_text_lt_asymmetric(shown.name, before[p].name);
                }
            }
        }
        index.insert(at, record);
        proof {
            let after = records_of(index@);
            assert(after =~= before.insert(at as int, shown));
            assert forall|p: int, q: int| 0 <= p < q < after.len() implies text_lt(
                (#[trigger] after[p]).name,
                (#[trigger] after[q]).name,
            ) by {
                let op = if p < at { p } else { p - 1 };
                let oq = if q < at { q } else { q - 1 };
                if p != at && q != at {
                    assert(text_lt(before[op].name, before[oq].name));
                } else if q == at {
                    assert(text_lt(before[op].name, shown.name));
                } else {
                    if oq > at {
                        assert(text_lt(before[at as int].name, before[oq].name));
                        lemma_text_lt_transitive(shown.name, before[at as int].name, before[oq].name);
                    }
                }
            }
        }
        true
    }

    /// The index made from the descriptors that a scan of the system found.
    ///
    /// A descriptor counts when it asks to be shown and has both a display
    /// name and a command. Of several that share a display name the first
    /// one counts. The result is in name order.
    pub fn scan_for_applications(entries: &Vec<DesktopEntry>) -> (index: Vec<ApplicationInfo>)
        ensures
            is_index_of(candidates(entries@), records_of(index@)),
    {
        let ghost found = candidates(entries@);
        let mut index: Vec<ApplicationInfo> = Vec::new();
        let mut k: usize = 0;
        while k < entries.len()
            invariant
                k <= entries.len(),
                found == candidates(entries@),
                is_index_of(found.take(k as int), records_of(index@)),
            decreases entries.len() - k,
        {
            let entry = &entries[k];
            let ghost before = records_of(index@);
            let mut added: bool = false;
            if entry.should_show {
                match (&entry.name, &entry.command) {
                    (Some(name), Some(command)) => {
                        let record = ApplicationInfo {
                            name: name.clone(),
                            exec_command: command.clone(),
                            icon_ref: copy_text(&entry.icon),
                            icon_resolved_path: copy_text(&entry.icon_path),
                        };
                        assert(Some(record@) == found[k as int]);
                        added = Applications::insert(&mut index, record);
                    },
                    _ => {},
                }
            }
            proof {
                lemma_index_grows(found, k as int, before, records_of(index@), added);
            }
            k += 1;
        }
        assert(found.take(entries.len() as int) =~= found);
        index
    }

    /// The index made from rows that were read back from the cache.
    ///
    /// What the cache holds is not trusted to be an index: it is made into
    /// one again, so that the result is in name order with one record per
    /// name whatever the file said. Of rows that share a name the first one
    /// counts.
    pub fn index_of_rows(rows: &Vec<ApplicationInfo>) -> (index: Vec<ApplicationInfo>)
        ensures
            is_index_of(all_candidates(records_of(rows@)), records_of(index@)),
    {
        let ghost found = all_candidates(records_of(rows@));
        let mut index: Vec<ApplicationInfo> = Vec::new();
        let mut k: usize = 0;
        while k < rows.len()
            invariant
                k <= rows.len(),
                found == all_candidates(records_of(rows@)),
                is_index_of(found.take(k as int), records_of(index@)),
            decreases rows.len() - k,
        {
            let ghost before = records_of(index@);
            let record = rows[k].duplicate();
            assert(Some(record@) == found[k as int]);
            let added = Applications::insert(&mut index, record);
            proof {
                lemma_index_grows(found, k as int, before, records_of(index@), added);
            }
            k += 1;
        }
        assert(found.take(rows.len() as int) =~= found);
        index
    }

    /// The index that the cache holds, if the cache can be used.
    ///
    /// The cache can be used when its file was there, is not older than
    /// the freshness window and holds a list of records. The index is made
    /// from those records as by `index_of_rows`. `None` means that the
    /// system has to be scanned.
    pub fn get_cached_applications(file: Option<&str>, modified_at: u64, now: u64) -> (index:
        Option<Vec<ApplicationInfo>>)
        ensures
            index is Some <==> file is Some && is_fresh(modified_at, now) && json_rows(file->0@)
                is Some,
            index is Some ==> is_index_of(
                all_candidates(json_rows(file->0@)->0),
                records_of(index->0@),
            ),
    {
        match load_from_cache(file, modified_at, now) {
            Some(rows) => Some(Applications::index_of_rows(&rows)),
            None => None,
        }
    }

    /// A scan together with what it leaves in the cache: the index made
    /// from the descriptors that were found, and the text of the cache file
    /// for that index.
    pub fn scan_and_cache(entries: &Vec<DesktopEntry>) -> (scanned: (Vec<ApplicationInfo>, String))
        ensures
            is_index_of(candidates(entries@), records_of(scanned.0@)),
            scanned.1@ == json_text(records_of(scanned.0@)),
    {
        let index = Applications::scan_for_applications(entries);
        let text = match save_to_cache(&index) {
            Ok(text) => text,
            Err(_) => String::new(),
        };
        (index, text)
    }
}

fn copy_text(field: &Option<String>) -> (out: Option<String>)
    ensures
        out == *field,
{
    match field {
        Some(t) => Some(t.clone()),
        None => None,
    }
}

/// One step of building an index: the index of the first `k` candidates
/// becomes the index of the first `k + 1`, by an insertion when candidate
/// `k` is a record of a new name and by nothing otherwise.
proof fn lemma_index_grows(
    found: Seq<Option<ApplicationRecord>>,
    k: int,
    before: Seq<ApplicationRecord>,
    after: Seq<ApplicationRecord>,
    added: bool,
)
    requires
        0 <= k < found.len(),
        is_index_of(found.take(k), before),
        sorted_by_name(after),
        found[k] is None ==> !added,
        found[k] is Some ==> added == !has_name(before, found[k]->0.name),
        !added ==> after == before,
        added ==> exists|at: int|
            0 <= at <= before.len() && after == #[trigger] before.insert(at, found[k]->0),
    ensures
        is_index_of(found.take(k + 1), after),
{
    let old_found = found.take(k);
    let new_found = found.take(k + 1);
    assert(new_found[k] == found[k]);
    assert forall|i: int| first_of_name(old_found, i) implies first_of_name(new_found, i) by {
        assert forall|j: int| 0 <= j < i && (#[trigger] new_found[j]) is Some implies
            new_found[j]->0.name != new_found[i]->0.name by {
            assert(old_found[j] is Some);
        }
    }
    assert forall|p: int| 0 <= p < before.len() implies #[trigger] is_first_candidate(
        new_found,
        before[p],
    ) by {
        assert(is_first_candidate(old_found, before[p]));
        let i = choose|i: int| #[trigger] first_of_name(old_found, i) && old_found[i] == Some(before[p]);
        assert(first_of_name(new_found, i) && new_found[i] == Some(before[p]));
    }
    if added {
        let at = choose|at: int|
            0 <= at <= before.len() && after == #[trigger] before.insert(at, found[k]->0);
        assert forall|j: int| 0 <= j < k && (#[trigger] new_found[j]) is Some implies
            new_found[j]->0.name != new_found[k]->0.name by {
            assert(old_found[j] is Some);
            assert(has_name(before, old_found[j]->0.name));
        }
        assert(first_of_name(new_found, k));
        assert forall|p: int| 0 <= p < after.len() implies #[trigger] is_first_candidate(
            new_found,
            after[p],
        ) by {
            if p == at {
                assert(first_of_name(new_found, k) && new_found[k] == Some(after[p]));
            } else {
                let op = if p < at { p } else { p - 1 };
                assert(after[p] == before[op]);
                assert(is_first_candidate(new_found, before[op]));
            }
        }
        assert forall|i: int| 0 <= i < new_found.len() && new_found[i] is Some implies
            #[trigger] has_name(after, new_found[i]->0.name) by {
            if i == k {
                assert(after[at].name == new_found[i]->0.name);
            } else {
                assert(old_found[i] is Some);
                assert(has_name(before, old_found[i]->0.name));
                let q = choose|q: int|
                    0 <= q < before.len() && (#[trigger] before[q]).name == old_found[i]->0.name;
                let p = if q < at { q } else { q + 1 };
                assert(after[p] == before[q]);
            }
        }
    } else {
        assert forall|i: int| 0 <= i < new_found.len() && new_found[i] is Some implies
            #[trigger] has_name(after, new_found[i]->0.name) by {
            if i < k {
                assert(old_found[i] is Some);
                assert(has_name(before, old_found[i]->0.name));
            }
        }
    }
}

} // verus!
