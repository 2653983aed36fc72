//! Reopening input devices that disconnected: the checks that a reattached device is the one
//! that left, and the table of the directories that are watched for it to come back.

use vstd::prelude::*;

use crate::capability::Capabilities;
use crate::persist::storage::{CachedCapabilities, DeviceCache};
use crate::data::hid_usage_parser::decode_lossy;
use crate::error::SystemError;
use crate::text::{join_strs, strings_view};

verus! {

/// Whether two sets of capabilities hold the same codes, axes and repeat information.
pub open spec fn same_capabilities(a: Capabilities, b: Capabilities) -> bool {
    &&& a.code_seq() == b.code_seq()
    &&& a.abs_seq() == b.abs_seq()
    &&& a.rep_spec() == b.rep_spec()
}

fn same_capabilities_exec(a: &Capabilities, b: &Capabilities) -> (res: bool)
    ensures
        res == same_capabilities(*a, *b),
{
    let codes_a = a.codes();
    let codes_b = b.codes();
    if codes_a.len() != codes_b.len() {
        return false;
    }
    let mut i: usize = 0;
    while i < codes_a.len()
        invariant
            i <= codes_a@.len(),
            codes_a@.len() == codes_b@.len(),
            codes_a@ == a.code_seq(),
            codes_b@ == b.code_seq(),
            forall|k: int| 0 <= k < i ==> codes_a@[k] == codes_b@[k],
        decreases codes_a@.len() - i,
    {
        if codes_a[i] != codes_b[i] {
            return false;
        }
        i += 1;
    }
    proof {
        assert(codes_a@ =~= codes_b@);
    }
    let axes_a = a.abs_info();
    let axes_b = b.abs_info();
    if axes_a.len() != axes_b.len() {
        proof {
            assert(a.abs_seq() != b.abs_seq());
        }
        return false;
    }
    let mut i: usize = 0;
    while i < axes_a.len()
        invariant
            i <= axes_a@.len(),
            axes_a@.len() == axes_b@.len(),
            axes_a@ == a.abs_seq(),
            axes_b@ == b.abs_seq(),
            forall|k: int| 0 <= k < i ==> axes_a@[k] == axes_b@[k],
        decreases axes_a@.len() - i,
    {
        let (code_a, info_a) = axes_a[i];
        let (code_b, info_b) = axes_b[i];
        if !(code_a == code_b && info_a == info_b) {
            proof {
                assert(axes_a@[i as int] != axes_b@[i as int]);
            }
            return false;
        }
        i += 1;
    }
    proof {
        assert(axes_a@ =~= axes_b@);
        assert(a.abs_seq() == b.abs_seq());
    }
    match (a.rep_info(), b.rep_info()) {
        (None, None) => true,
        (Some(rep_a), Some(rep_b)) => rep_a == rep_b,
        _ => false,
    }
}

/// Checks that a device that was opened again is the one that disconnected: it must have the
/// same name and the same capabilities.
pub fn check_reopened_device(
    path: &str,
    original_name: &[u8],
    new_name: &[u8],
    original_caps: &Capabilities,
    new_caps: &Capabilities,
) -> (res: Result<(), SystemError>)
    ensures
        res is Ok <==> original_name@ == new_name@ && same_capabilities(*original_caps, *new_caps),
{
    let mut names_equal = original_name.len() == new_name.len();
    let mut i: usize = 0;
    while names_equal && i < original_name.len()
        invariant
            i <= original_name@.len(),
            names_equal ==> original_name@.len() == new_name@.len(),
            names_equal ==> forall|k: int| 0 <= k < i ==> original_name@[k] == new_name@[k],
            !names_equal ==> original_name@ != new_name@,
        decreases original_name@.len() - i,
    {
        if original_name[i] != new_name[i] {
            names_equal = false;
        }
        i += 1;
    }
    if names_equal {
        proof {
            assert(original_name@ =~= new_name@);
        }
    }
    if !names_equal {
        let original = decode_lossy(original_name);
        let new = decode_lossy(new_name);
        return Err(SystemError::new(join_strs(&[
            "Cannot reopen input device \"",
            path,
            "\": the reattached device's name differs from the original name. Original: ",
            original.as_str(),
            ", new: ",
            new.as_str(),
        ])));
    }
    if !same_capabilities_exec(original_caps, new_caps) {
        return Err(SystemError::new(join_strs(&[
            "Cannot reopen input device \"",
            path,
            "\": the reattached device's capabilities are different from the original device that disconnected.",
        ])));
    }
    Ok(())
}

/// A table of watches: each watch id once, with the paths that it watches.
pub struct WatchTable {
    watches: Vec<(i32, Vec<String>)>,
}

/// The entries of a watch table, as plain values.
pub open spec fn entries_view(watches: Seq<(i32, Vec<String>)>) -> Seq<(i32, Seq<Seq<char>>)> {
    watches.map_values(|e: (i32, Vec<String>)| (e.0, strings_view(e.1@)))
}

/// Whether a path is not the given one.
pub open spec fn is_not(path: Seq<char>) -> spec_fn(Seq<char>) -> bool {
    |p: Seq<char>| p != path
}

/// The paths without the given one.
pub open spec fn paths_without(paths: Seq<Seq<char>>, path: Seq<char>) -> Seq<Seq<char>> {
    paths.filter(is_not(path))
}

/// The table after a path is no longer watched, and the ids of the watches that no longer watch
/// any path, which are dropped from the table.
pub open spec fn without_path(entries: Seq<(i32, Seq<Seq<char>>)>, path: Seq<char>) -> (Seq<(i32, Seq<Seq<char>>)>, Seq<i32>)
    decreases entries.len(),
{
    if entries.len() == 0 {
        (Seq::empty(), Seq::empty())
    } else {
        let (rest, ids) = without_path(entries.drop_last(), path);
        let (id, paths) = entries.last();
        if paths.contains(path) {
            let kept = paths_without(paths, path);
            if kept.len() == 0 {
                (rest, ids.push(id))
            } else {
                (rest.push((id, kept)), ids)
            }
        } else {
            (rest.push((id, paths)), ids)
        }
    }
}

/// All watched paths, the paths of each watch in turn.
pub open spec fn all_paths(entries: Seq<(i32, Seq<Seq<char>>)>) -> Seq<Seq<char>>
    decreases entries.len(),
{
    if entries.len() == 0 {
        Seq::empty()
    } else {
        all_paths(entries.drop_last()) + entries.last().1
    }
}

/// The table after a watch id was given a path: added to the paths of the id if it is there,
/// else as a new entry at the end.
pub open spec fn with_watch(entries: Seq<(i32, Seq<Seq<char>>)>, id: i32, path: Seq<char>) -> Seq<(i32, Seq<Seq<char>>)> {
    if exists|i: int| 0 <= i < entries.len() && (#[trigger] entries[i]).0 == id {
        let i = choose|i: int| 0 <= i < entries.len() && (#[trigger] entries[i]).0 == id;
        entries.update(i, (id, entries[i].1.push(path)))
    } else {
        entries.push((id, seq![path]))
    }
}

fn strings_equal(a: &String, b: &String) -> (res: bool)
    ensures
        res == (a@ == b@),
{
    *a == *b
}

fn contains_string(list: &Vec<String>, s: &String) -> (res: bool)
    ensures
        res == strings_view(list@).contains(s@),
{
    let mut i: usize = 0;
    while i < list.len()
        invariant
            i <= list@.len(),
            forall|k: int| 0 <= k < i ==> list@[k]@ != s@,
        decreases list@.len() - i,
    {
        if strings_equal(&list[i], s) {
            proof {
                assert(strings_view(list@)[i as int] == s@);
            }
            return true;
        }
        i += 1;
    }
    proof {
        if strings_view(list@).contains(s@) {
            let k = choose|k: int| 0 <= k < strings_view(list@).len() && strings_view(list@)[k] == s@;
            assert(list@[k]@ == s@);
        }
    }
    false
}

fn without_string(list: &Vec<String>, s: &String) -> (res: Vec<String>)
    ensures
        strings_view(res@) == paths_without(strings_view(list@), s@),
{
    let mut res: Vec<String> = Vec::new();
    let mut i: usize = 0;
    proof {
        reveal(Seq::filter);
        assert(strings_view(list@).take(0).filter(is_not(s@)) =~= Seq::<Seq<char>>::empty());
        assert(strings_view(res@) =~= Seq::<Seq<char>>::empty());
    }
    while i < list.len()
        invariant
            i <= list@.len(),
            strings_view(res@) == paths_without(strings_view(list@).take(i as int), s@),
        decreases list@.len() - i,
    {
        let ghost view = strings_view(list@);
        proof {
            reveal(Seq::filter);
            assert(view.take(i + 1).drop_last() == view.take(i as int));
            assert(view.take(i + 1).last() == list@[i as int]@);
        }
        let ghost before = res@;
        if !strings_equal(&list[i], s) {
            res.push(list[i].clone());
            proof {
                assert(strings_view(res@) =~= strings_view(before).push(list@[i as int]@));
            }
        }
        i += 1;
    }
    proof {
        assert(strings_view(list@).take(list@.len() as int) == strings_view(list@));
    }
    res
}

/// After a path was removed from a watch table, no watch watches it any more.
pub proof fn lemma_removed_path_is_unwatched(entries: Seq<(i32, Seq<Seq<char>>)>, path: Seq<char>)
    ensures
        !all_paths(without_path(entries, path).0).contains(path),
    decreases entries.len(),
{
    if entries.len() > 0 {
        lemma_removed_path_is_unwatched(entries.drop_last(), path);
        let (rest, ids) = without_path(entries.drop_last(), path);
        let (id, paths) = entries.last();
        if paths.contains(path) {
            let kept = paths_without(paths, path);
            if kept.len() > 0 {
                assert(all_paths(rest.push((id, kept))) == all_paths(rest) + kept) by {
                    assert(rest.push((id, kept)).drop_last() == rest);
                }
                assert forall|i: int| 0 <= i < kept.len() implies kept[i] != path by {
                    paths.lemma_filter_pred(is_not(path), i);
                }
                assert(!(all_paths(rest) + kept).contains(path)) by {
                    if (all_paths(rest) + kept).contains(path) {
                        let i = choose|i: int| 0 <= i < (all_paths(rest) + kept).len() && (all_paths(rest) + kept)[i] == path;
                        if i < all_paths(rest).len() {
                            assert(all_paths(rest)[i] == path);
                        } else {
                            assert(kept[i - all_paths(rest).len()] == path);
                        }
                    }
                }
            }
        } else {
            assert(all_paths(rest.push((id, paths))) == all_paths(rest) + paths) by {
                assert(rest.push((id, paths)).drop_last() == rest);
            }
            assert(!(all_paths(rest) + paths).contains(path)) by {
                if (all_paths(rest) + paths).contains(path) {
                    let i = choose|i: int| 0 <= i < (all_paths(rest) + paths).len() && (all_paths(rest) + paths)[i] == path;
                    if i < all_paths(rest).len() {
                        assert(all_paths(rest)[i] == path);
                    } else {
                        assert(paths[i - all_paths(rest).len()] == path);
                    }
                }
            }
        }
    }
}

impl WatchTable {
    /// The watches, each with the paths that it watches.
    pub closed spec fn entries(&self) -> Seq<(i32, Seq<Seq<char>>)> {
        entries_view(self.watches@)
    }

    /// Each watch id occurs once, and watches at least one path.
    pub open spec fn well_formed(&self) -> bool {
        &&& forall|i: int, j: int| 0 <= i < j < self.entries().len() ==> (#[trigger] self.entries()[i]).0
            != (#[trigger] self.entries()[j]).0
        &&& forall|i: int| 0 <= i < self.entries().len() ==> (#[trigger] self.entries()[i]).1.len() > 0
    }

    pub fn new() -> (res: WatchTable)
        ensures
            res.well_formed(),
            res.entries() == Seq::<(i32, Seq<Seq<char>>)>::empty(),
    {
        let res = WatchTable { watches: Vec::new() };
        proof {
            assert(res.entries() =~= Seq::<(i32, Seq<Seq<char>>)>::empty());
        }
        res
    }

    /// Records that a watch id watches a path.
    pub fn add(&mut self, id: i32, path: String)
        requires
            old(self).well_formed(),
        ensures
            final(self).well_formed(),
            final(self).entries() == with_watch(old(self).entries(), id, path@),
    {
        let ghost entries = self.entries();
        let mut i: usize = 0;
        while i < self.watches.len()
            invariant
                i <= self.watches@.len(),
                entries == entries_view(self.watches@),
                *self == *old(self),
                entries == old(self).entries(),
                old(self).well_formed(),
                forall|k: int| 0 <= k < i ==> (#[trigger] entries[k]).0 != id,
            decreases self.watches@.len() - i,
        {
            if self.watches[i].0 == id {
                let mut paths = self.watches[i].1.clone();
                proof {
                    assert(entries[i as int] == (id, strings_view(self.watches@[i as int].1@)));
                }
                let ghost old_paths = paths@;
                paths.push(path);
                self.watches.set(i, (id, paths));
                proof {
                    let j = choose|j: int| 0 <= j < entries.len() && (#[trigger] entries[j]).0 == id;
                    if j != i {
                        if j < i {
                            assert(entries[j].0 != entries[i as int].0);
                        } else {
                            assert(entries[i as int].0 != entries[j].0);
                        }
                    }
                    assert(strings_view(paths@) =~= strings_view(old_paths).push(path@));
                    assert(self.entries() =~= with_watch(entries, id, path@));
                    assert forall|a: int, b: int| 0 <= a < b < self.entries().len() implies (#[trigger] self.entries()[a]).0
                        != (#[trigger] self.entries()[b]).0 by {
                        assert(self.entries()[a].0 == entries[a].0);
                        assert(self.entries()[b].0 == entries[b].0);
                    }
                    assert forall|a: int| 0 <= a < self.entries().len() implies (#[trigger] self.entries()[a]).1.len() > 0 by {
                        if a != i {
                            assert(self.entries()[a] == entries[a]);
                        }
                    }
                }
                return;
            }
            proof {
                assert(entries[i as int].0 == self.watches@[i as int].0);
            }
            i += 1;
        }
        let mut paths: Vec<String> = Vec::new();
        paths.push(path);
        self.watches.push((id, paths));
        proof {
            assert(strings_view(paths@) =~= seq![path@]);
            assert(self.entries() =~= entries.push((id, seq![path@])));
            assert(!exists|k: int| 0 <= k < entries.len() && (#[trigger] entries[k]).0 == id);
            assert forall|a: int, b: int| 0 <= a < b < self.entries().len() implies (#[trigger] self.entries()[a]).0
                != (#[trigger] self.entries()[b]).0 by {
                if b < entries.len() {
                    assert(self.entries()[a] == entries[a]);
                    assert(self.entries()[b] == entries[b]);
                } else {
                    assert(self.entries()[a] == entries[a]);
                }
            }
            assert forall|a: int| 0 <= a < self.entries().len() implies (#[trigger] self.entries()[a]).1.len() > 0 by {
                if a < entries.len() {
                    assert(self.entries()[a] == entries[a]);
                }
            }
        }
    }

    /// Stops watching a path. Returns the ids of the watches that no longer watch any path, which
    /// leave the table.
    pub fn remove_path(&mut self, path: &String) -> (res: Vec<i32>)
        requires
            old(self).well_formed(),
        ensures
            final(self).well_formed(),
            (final(self).entries(), res@) == without_path(old(self).entries(), path@),
    {
        let ghost entries = self.entries();
        let mut kept: Vec<(i32, Vec<String>)> = Vec::new();
        let mut dropped: Vec<i32> = Vec::new();
        let mut i: usize = 0;
        proof {
            assert(entries.take(0) =~= Seq::<(i32, Seq<Seq<char>>)>::empty());
            assert(entries_view(kept@) =~= Seq::<(i32, Seq<Seq<char>>)>::empty());
        }
        while i < self.watches.len()
            invariant
                i <= self.watches@.len(),
                entries == entries_view(self.watches@),
                entries == old(self).entries(),
                old(self).well_formed(),
                (entries_view(kept@), dropped@) == without_path(entries.take(i as int), path@),
                forall|k: int| 0 <= k < entries_view(kept@).len() ==> (#[trigger] entries_view(kept@)[k]).1.len() > 0,
                forall|k: int| 0 <= k < entries_view(kept@).len() ==> exists|x: int| 0 <= x < i
                    && (#[trigger] entries_view(kept@)[k]).0 == entries[x].0,
                forall|a: int, b: int| 0 <= a < b < entries_view(kept@).len() ==> (#[trigger] entries_view(kept@)[a]).0
                    != (#[trigger] entries_view(kept@)[b]).0,
            decreases self.watches@.len() - i,
        {
            proof {
                assert(entries.take(i + 1).drop_last() == entries.take(i as int));
                assert(entries.take(i + 1).last() == entries[i as int]);
                assert(entries[i as int] == (self.watches@[i as int].0, strings_view(self.watches@[i as int].1@)));
            }
            let id = self.watches[i].0;
            let ghost old_kept = entries_view(kept@);
            if contains_string(&self.watches[i].1, path) {
                let remaining = without_string(&self.watches[i].1, path);
                if remaining.len() == 0 {
                    dropped.push(id);
                } else {
                    kept.push((id, remaining));
                    proof {
                        assert(entries_view(kept@) =~= old_kept.push((id, strings_view(remaining@))));
                    }
                }
            } else {
                kept.push((id, self.watches[i].1.clone()));
                proof {
                    assert(entries_view(kept@) =~= old_kept.push(entries[i as int]));
                }
            }
            proof {
                let now = entries_view(kept@);
                assert forall|k: int| 0 <= k < now.len() implies exists|x: int| 0 <= x < i + 1
                    && (#[trigger] now[k]).0 == entries[x].0 by {
                    if k < old_kept.len() {
                        assert(now[k] == old_kept[k]);
                    } else {
                        assert(now[k].0 == entries[i as int].0);
                    }
                }
                assert forall|k: int| 0 <= k < now.len() implies (#[trigger] now[k]).1.len() > 0 by {
                    if k < old_kept.len() {
                        assert(now[k] == old_kept[k]);
                    }
                }
                assert forall|a: int, b: int| 0 <= a < b < now.len() implies (#[trigger] now[a]).0 != (#[trigger] now[b]).0 by {
                    if b < old_kept.len() {
                        assert(now[a] == old_kept[a]);
                        assert(now[b] == old_kept[b]);
                    } else {
                        assert(now[a] == old_kept[a]);
                        let x = choose|x: int| 0 <= x < i && (#[trigger] old_kept[a]).0 == entries[x].0;
                        assert(entries[x].0 != entries[i as int].0);
                    }
                }
            }
            i += 1;
        }
        proof {
            assert(entries.take(entries.len() as int) == entries);
        }
        self.watches = kept;
        dropped
    }

    /// All watched paths, those of each watch in turn.
    pub fn watched_paths(&self) -> (res: Vec<String>)
        ensures
            strings_view(res@) == all_paths(self.entries()),
    {
        let ghost entries = self.entries();
        let mut res: Vec<String> = Vec::new();
        let mut i: usize = 0;
        proof {
            assert(entries.take(0) =~= Seq::<(i32, Seq<Seq<char>>)>::empty());
            assert(strings_view(res@) =~= Seq::<Seq<char>>::empty());
        }
        while i < self.watches.len()
            invariant
                i <= self.watches@.len(),
                entries == entries_view(self.watches@),
                strings_view(res@) == all_paths(entries.take(i as int)),
            decreases self.watches@.len() - i,
        {
            proof {
                assert(entries.take(i + 1).drop_last() == entries.take(i as int));
                assert(entries.take(i + 1).last() == entries[i as int]);
            }
            let mut paths = self.watches[i].1.clone();
            let ghost before = res@;
            let ghost added = paths@;
            res.append(&mut paths);
            proof {
                assert(res@ == before + added);
                assert(strings_view(res@) =~= strings_view(before) + strings_view(added));
            }
            i += 1;
        }
        proof {
            assert(entries.take(entries.len() as int) == entries);
        }
        res
    }
}

/// The paths of the list that the other list does not hold, in order.
pub open spec fn missing_from(paths: Seq<Seq<char>>, others: Seq<Seq<char>>) -> Seq<Seq<char>> {
    paths.filter(|p: Seq<char>| !others.contains(p))
}

/// The paths of the first list that the second does not hold, in order: the watched paths that
/// are no longer wanted, or the wanted paths that are not watched yet.
pub fn paths_missing_from(paths: &Vec<String>, others: &Vec<String>) -> (res: Vec<String>)
    ensures
        strings_view(res@) == missing_from(strings_view(paths@), strings_view(others@)),
{
    let ghost view = strings_view(paths@);
    let ghost other_view = strings_view(others@);
    let mut res: Vec<String> = Vec::new();
    let mut i: usize = 0;
    proof {
        reveal(Seq::filter);
        assert(view.take(0).filter(|p: Seq<char>| !other_view.contains(p)) =~= Seq::<Seq<char>>::empty());
        assert(strings_view(res@) =~= Seq::<Seq<char>>::empty());
    }
    while i < paths.len()
        invariant
            i <= paths@.len(),
            view == strings_view(paths@),
            other_view == strings_view(others@),
            strings_view(res@) == missing_from(view.take(i as int), other_view),
        decreases paths@.len() - i,
    {
        proof {
            reveal(Seq::filter);
            assert(view.take(i + 1).drop_last() == view.take(i as int));
            assert(view.take(i + 1).last() == paths@[i as int]@);
        }
        let ghost before = res@;
        if !contains_string(others, &paths[i]) {
            res.push(paths[i].clone());
            proof {
                assert(strings_view(res@) =~= strings_view(before).push(paths@[i as int]@));
            }
        }
        i += 1;
    }
    proof {
        assert(view.take(paths@.len() as int) == view);
    }
    res
}

/// What becomes of an input device that cannot be opened when the program starts.
pub enum UnopenedPlan {
    /// The program cannot start.
    Fail,
    /// The device is opened later; until then it counts as having these capabilities.
    Blueprint(Capabilities),
}

/// The message for a device whose capabilities were never stored.
pub open spec fn unknown_capabilities_message(path: Seq<char>, location: Seq<char>) -> Seq<char> {
    "Error: the input device "@ + path
        + " is not present, and its capabilities have not been stored on the disk either. Evsieve is unable to figure out which capabilities this device has. When this device is plugged in, evsieve will try to save its capabilities in the following file: "@
        + location
}

/// The message for a device whose stored capabilities cannot be read.
pub open spec fn corrupted_capabilities_message(path: Seq<char>, location: Seq<char>) -> Seq<char> {
    "Error: the input device "@ + path
        + " is not present, and its capabilities should have been stored on the disk, but evsieve is unable to interpret its file format. Maybe the content of the file have been corrupted. Evsieve will try to regenerate the file the next time the input device is seen, but in the meanwhile evsieve is unable to guess the capabilities of that input device, and thing will not work properly. The file in question is stored at: "@
        + location
}

/// Decides what becomes of an input device that cannot be opened at startup. Only the full
/// persistence mode, which comes with the cache of the device, lets the program start without
/// it: with the capabilities that were stored for it, or, when they cannot be had, with none and
/// a message that says why. Without a cache the program cannot start.
pub fn plan_unopened_device(cache: Option<DeviceCache>, path: &str) -> (res: (UnopenedPlan, Option<String>))
    ensures
        match cache {
            None => res.0 is Fail && res.1 is None,
            Some(cache) => match cache.content {
                CachedCapabilities::Known(caps) => res.0 == UnopenedPlan::Blueprint(caps) && res.1 is None,
                CachedCapabilities::NonExistent => {
                    &&& res.0 matches UnopenedPlan::Blueprint(caps) && caps.code_seq().len() == 0
                        && caps.abs_seq().len() == 0 && caps.rep_spec() is None
                    &&& res.1 matches Some(message) && message@ == unknown_capabilities_message(path@, cache.location@)
                },
                CachedCapabilities::Corrupted => {
                    &&& res.0 matches UnopenedPlan::Blueprint(caps) && caps.code_seq().len() == 0
                        && caps.abs_seq().len() == 0 && caps.rep_spec() is None
                    &&& res.1 matches Some(message) && message@ == corrupted_capabilities_message(path@, cache.location@)
                },
            },
        },
{
    match cache {
        None => (UnopenedPlan::Fail, None),
        Some(cache) => match cache.content {
            CachedCapabilities::Known(caps) => (UnopenedPlan::Blueprint(caps), None),
            CachedCapabilities::NonExistent => {
                let message = join_strs(&[
                    "Error: the input device ",
                    path,
                    " is not present, and its capabilities have not been stored on the disk either. Evsieve is unable to figure out which capabilities this device has. When this device is plugged in, evsieve will try to save its capabilities in the following file: ",
                    cache.location.as_str(),
                ]);
                proof {
                    reveal_with_fuel(crate::text::flatten_strs, 5);
                    assert(message@ =~= unknown_capabilities_message(path@, cache.location@));
                }
                (UnopenedPlan::Blueprint(Capabilities::new()), Some(message))
            },
            CachedCapabilities::Corrupted => {
                let message = join_strs(&[
                    "Error: the input device ",
                    path,
                    " is not present, and its capabilities should have been stored on the disk, but evsieve is unable to interpret its file format. Maybe the content of the file have been corrupted. Evsieve will try to regenerate the file the next time the input device is seen, but in the meanwhile evsieve is unable to guess the capabilities of that input device, and thing will not work properly. The file in question is stored at: ",
                    cache.location.as_str(),
                ]);
                proof {
                    reveal_with_fuel(crate::text::flatten_strs, 5);
                    assert(message@ =~= corrupted_capabilities_message(path@, cache.location@));
                }
                (UnopenedPlan::Blueprint(Capabilities::new()), Some(message))
            },
        },
    }
}

} // verus!
