//! The list of dumps: what is shown of each one, and in which order.

use vstd::prelude::*;
use crate::clock::{
    can_show, is_stamp, second_of, show_second, show_time, showable, NANOS_PER_MILLI, NANOS_PER_SECOND,
};
use crate::metadata::{Metadata, StampUnit};
use crate::names::{
    is_dump, is_same_path, is_sidecar, names_dump, names_sidecar, same_path, title_from_name,
    title_in_name,
};
use crate::size::{human_size, human_size_text};
use crate::tags::rows_of;
use crate::text::{copy_strings, text_view, views};

verus! {

/// What is shown of a dump: its time, title and size.
#[derive(Debug)]
pub struct Entry {
    pub time: String,
    pub title: String,
    pub size: String,
}

/// What the file system says of a file.
#[derive(Debug)]
pub struct FileStat {
    pub len: u64,
    /// When the file was last changed, where that is known.
    pub modified: Option<i128>,
}

/// What is known of a file in the dumps directory.
#[derive(Debug)]
pub struct FileFacts {
    /// The bytes of its path.
    pub path: Vec<u8>,
    pub is_file: bool,
    /// Its file name, where that is valid text.
    pub name: Option<String>,
    /// Its file name with replacements for what is no valid text.
    pub lossy_name: String,
    /// `None` where the file system would not tell.
    pub stat: Option<FileStat>,
    /// What its sidecar says.
    pub metadata: Metadata,
}

/// A dump with its place in time.
#[derive(Debug)]
pub struct Dump {
    pub path: Vec<u8>,
    pub entry: Entry,
    pub tags: Vec<String>,
    pub time: i128,
}

/// The dumps in view, in three columns of the same length.
#[derive(Debug)]
pub struct Listing {
    pub entries: Vec<Entry>,
    pub paths: Vec<Vec<u8>>,
    pub tags_vec: Vec<Vec<String>>,
}

/// A dump in a list.
pub struct DumpView {
    pub path: Seq<u8>,
    pub time: Seq<char>,
    pub title: Seq<char>,
    pub size: Seq<char>,
    pub tags: Seq<Seq<char>>,
}

pub open spec fn dump_view(path: Seq<u8>, entry: Entry, tags: Seq<String>) -> DumpView {
    DumpView {
        path,
        time: entry.time@,
        title: entry.title@,
        size: entry.size@,
        tags: views(tags),
    }
}

impl View for Dump {
    type V = DumpView;

    open spec fn view(&self) -> DumpView {
        dump_view(self.path@, self.entry, self.tags@)
    }
}

impl View for Listing {
    type V = Seq<DumpView>;

    open spec fn view(&self) -> Seq<DumpView> {
        Seq::new(
            self.entries@.len(),
            |i: int| dump_view(self.paths@[i]@, self.entries@[i], self.tags_vec@[i]@),
        )
    }
}

/// The tags of the dumps of a list.
pub open spec fn tag_rows(list: Seq<DumpView>) -> Seq<Seq<Seq<char>>> {
    list.map_values(|d: DumpView| d.tags)
}

/// The first position of a path in a list.
pub open spec fn position_of(list: Seq<DumpView>, path: Seq<u8>) -> Option<usize>
    decreases list.len(),
{
    if list.len() == 0 {
        None
    } else {
        match position_of(list.drop_last(), path) {
            Some(i) => Some(i),
            None => if is_same_path(list.last().path, path) {
                Some((list.len() - 1) as usize)
            } else {
                None
            },
        }
    }
}

/// No two dumps of the list have the same path.
pub open spec fn distinct_paths(list: Seq<DumpView>) -> bool {
    forall|i: int, j: int|
        0 <= i < j < list.len() ==> !is_same_path(
            (#[trigger] list[i]).path,
            (#[trigger] list[j]).path,
        )
}

/// The order that puts the newest first, as a list of positions: of two dumps
/// at the same time the one that was met later comes first.
pub open spec fn newest_first(order: Seq<int>, times: Seq<int>) -> bool {
    &&& order.len() == times.len()
    &&& forall|k: int| 0 <= k < order.len() ==> 0 <= #[trigger] order[k] < times.len()
    &&& forall|j: int, k: int|
        0 <= j < k < order.len() ==> {
            ||| times[#[trigger] order[j]] > times[#[trigger] order[k]]
            ||| times[order[j]] == times[order[k]] && order[j] > order[k]
        }
}

pub open spec fn times_of(dumps: Seq<Dump>) -> Seq<int> {
    dumps.map_values(|d: Dump| d.time as int)
}

impl Listing {
    /// The three columns have the same length.
    pub open spec fn wf(&self) -> bool {
        &&& self.paths@.len() == self.entries@.len()
        &&& self.tags_vec@.len() == self.entries@.len()
    }

    pub fn new() -> (list: Listing)
        ensures
            list.wf(),
            list@ == Seq::<DumpView>::empty(),
    {
        let list = Listing { entries: Vec::new(), paths: Vec::new(), tags_vec: Vec::new() };
        assert(list@ =~= Seq::<DumpView>::empty());
        list
    }

    pub fn len(&self) -> (n: usize)
        ensures
            n == self@.len(),
    {
        self.entries.len()
    }

    pub fn is_empty(&self) -> (yes: bool)
        ensures
            yes == (self@.len() == 0),
    {
        self.entries.len() == 0
    }

    /// Puts a dump in at position `at`.
    pub fn insert(&mut self, at: usize, path: Vec<u8>, entry: Entry, tags: Vec<String>)
        requires
            old(self).wf(),
            at <= old(self)@.len(),
        ensures
            final(self).wf(),
            final(self)@ == old(self)@.insert(at as int, dump_view(path@, entry, tags@)),
    {
        let ghost d = dump_view(path@, entry, tags@);
        self.entries.insert(at, entry);
        self.paths.insert(at, path);
        self.tags_vec.insert(at, tags);
        assert(self@ =~= old(self)@.insert(at as int, d));
    }

    /// Takes the dump at position `at` out.
    pub fn remove(&mut self, at: usize)
        requires
            old(self).wf(),
            at < old(self)@.len(),
        ensures
            final(self).wf(),
            final(self)@ == old(self)@.remove(at as int),
    {
        self.entries.remove(at);
        self.paths.remove(at);
        self.tags_vec.remove(at);
        assert(self@ =~= old(self)@.remove(at as int));
    }

    /// Puts a new entry and new tags in for the dump at position `at`.
    pub fn update(&mut self, at: usize, entry: Entry, tags: Vec<String>)
        requires
            old(self).wf(),
            at < old(self)@.len(),
        ensures
            final(self).wf(),
            final(self)@ == old(self)@.update(
                at as int,
                dump_view(old(self)@[at as int].path, entry, tags@),
            ),
    {
        let ghost d = dump_view(old(self)@[at as int].path, entry, tags@);
        self.entries.set(at, entry);
        self.tags_vec.set(at, tags);
        assert(self@ =~= old(self)@.update(at as int, d));
    }

    /// Where the dump with the given path stands; the first place, if there are
    /// several.
    pub fn position(&self, path: &Vec<u8>) -> (at: Option<usize>)
        requires
            self.wf(),
        ensures
            at == position_of(self@, path@),
    {
        let mut i: usize = 0;
        assert(self@.take(0) == Seq::<DumpView>::empty());
        while i < self.paths.len()
            invariant
                self.wf(),
                i <= self.paths@.len(),
                position_of(self@.take(i as int), path@) is None,
            decreases self.paths@.len() - i,
        {
            assert(self@[i as int].path == self.paths@[i as int]@);
            assert(self@.take(i + 1).drop_last() =~= self@.take(i as int));
            if same_path(&self.paths[i], path) {
                proof {
                    lemma_position_stays(self@, path@, i + 1);
                }
                return Some(i);
            }
            i = i + 1;
        }
        assert(self@.take(self@.len() as int) == self@);
        None
    }

    /// A list in memory has a length that fits.
    pub proof fn lemma_len(&self)
        ensures
            self@.len() <= usize::MAX,
    {
        assert(self@.len() == self.entries.len());
    }

    /// The tags of the dumps are the last column.
    pub proof fn lemma_tag_rows(&self)
        requires
            self.wf(),
        ensures
            rows_of(self.tags_vec@) == tag_rows(self@),
    {
        assert(rows_of(self.tags_vec@) =~= tag_rows(self@));
    }
}

/// A dump found in the first part of a list is found there in the whole list.
proof fn lemma_position_stays(list: Seq<DumpView>, path: Seq<u8>, n: int)
    requires
        0 <= n <= list.len(),
        position_of(list.take(n), path) is Some,
    ensures
        position_of(list, path) == position_of(list.take(n), path),
    decreases list.len() - n,
{
    if n < list.len() {
        assert(list.take(n + 1).drop_last() =~= list.take(n));
        lemma_position_stays(list, path, n + 1);
    } else {
        assert(list.take(n) =~= list);
    }
}

/// The position found holds the path and no earlier one does; if none is found,
/// the path is not in the list.
pub proof fn law_position(list: Seq<DumpView>, path: Seq<u8>)
    requires
        list.len() <= usize::MAX,
    ensures
        match position_of(list, path) {
            Some(i) => i < list.len() && is_same_path(list[i as int].path, path) && forall|k: int|
                0 <= k < i ==> !is_same_path((#[trigger] list[k]).path, path),
            None => forall|k: int|
                0 <= k < list.len() ==> !is_same_path((#[trigger] list[k]).path, path),
        },
    decreases list.len(),
{
    if list.len() > 0 {
        let shorter = list.drop_last();
        law_position(shorter, path);
        assert forall|k: int| 0 <= k < shorter.len() implies #[trigger] list[k] == shorter[k] by {}
    }
}

/// The dumps of `dumps` in the order given by positions.
pub open spec fn arranged(dumps: Seq<Dump>, order: Seq<int>) -> Seq<DumpView> {
    Seq::new(order.len(), |k: int| dumps[order[k]]@)
}

/// Sorts dumps into a list, the newest first.
pub fn sort_dumps(dumps: Vec<Dump>) -> (list: Listing)
    ensures
        list.wf(),
        exists|order: Seq<int>| #[trigger]
            newest_first(order, times_of(dumps@)) && list@ == arranged(dumps@, order),
{
    let ghost all = dumps@;
    let ghost times = times_of(all);
    let mut list = Listing::new();
    // The times of the dumps in the list.
    let mut placed: Vec<i128> = Vec::new();
    let ghost mut order: Seq<int> = seq![];
    proof {
        assert(list@ =~= arranged(all, order));
    }
    for d in it: dumps
        invariant
            it.seq() == all,
            times == times_of(all),
            list.wf(),
            list@ == arranged(all, order),
            placed@.len() == order.len(),
            forall|k: int|
                0 <= k < order.len() ==> #[trigger] placed@[k] == times[order[k]],
            newest_first(order, times.take(it.index() as int)),
    {
        let ghost n = it.index() as int;
        let ghost before = order;
        let mut p: usize = 0;
        while p < placed.len() && placed[p] > d.time
            invariant
                p <= placed@.len(),
                forall|k: int| 0 <= k < p ==> #[trigger] placed@[k] > d.time,
            decreases placed@.len() - p,
        {
            p = p + 1;
        }
        let ghost earlier = placed@;
        let Dump { path, entry, tags, time } = d;
        placed.insert(p, time);
        list.insert(p, path, entry, tags);
        proof {
            order = before.insert(p as int, n);
            assert(all[n] == d);
            assert(times[n] == time);
            assert(list@ =~= arranged(all, order));
            assert forall|k: int| 0 <= k < order.len() implies #[trigger] placed@[k]
                == times[order[k]] by {
                if k > p {
                    assert(order[k] == before[k - 1]);
                } else if k < p {
                    assert(order[k] == before[k]);
                }
            }
            let seen = times.take(n + 1);
            assert forall|k: int| 0 <= k < order.len() implies 0 <= #[trigger] order[k]
                < seen.len() by {
                if k != p {
                    let m = if k < p { k } else { k - 1 };
                    assert(order[k] == before[m]);
                }
            }
            assert forall|j: int, k: int| 0 <= j < k < order.len() implies {
                ||| seen[#[trigger] order[j]] > seen[#[trigger] order[k]]
                ||| seen[order[j]] == seen[order[k]] && order[j] > order[k]
            } by {
                let was = times.take(n);
                let a = if j < p { j } else { j - 1 };
                let b = if k < p { k } else { k - 1 };
                if j != p && k != p {
                    assert(order[j] == before[a] && order[k] == before[b]);
                    assert(0 <= before[a] < n && 0 <= before[b] < n);
                    assert(was[before[a]] > was[before[b]] || (was[before[a]] == was[before[b]]
                        && before[a] > before[b]));
                } else if k == p {
                    assert(order[j] == before[j]);
                    assert(0 <= before[j] < n);
                    assert(earlier[j] == times[before[j]]);
                } else {
                    assert(order[k] == before[k - 1]);
                    assert(0 <= before[p as int] < n && 0 <= before[k - 1] < n);
                    assert(earlier[p as int] == times[before[p as int]]);
                    if k - 1 > p {
                        assert(was[before[p as int]] >= was[before[k - 1]]);
                    }
                }
            }
        }
    }
    proof {
        assert(times.take(times.len() as int) =~= times);
        assert(newest_first(order, times_of(all)));
    }
    list
}

// ---- from files to dumps ----

/// The point in time of a timestamp from a sidecar.
pub open spec fn stamp_time(t: int, unit: StampUnit) -> int {
    match unit {
        StampUnit::Millis => t * NANOS_PER_MILLI,
        StampUnit::Seconds => t * NANOS_PER_SECOND,
    }
}

/// When the file was last changed, where that is known.
pub open spec fn modified_of(f: FileFacts) -> Option<i128> {
    match f.stat {
        Some(s) => s.modified,
        None => None,
    }
}

/// When the file was last changed; the start of 1970 where that is not known.
pub open spec fn modified_or_epoch(f: FileFacts) -> int {
    match modified_of(f) {
        Some(t) => t as int,
        None => 0,
    }
}

/// The positions of `true` in a list, in order.
pub open spec fn positions_of(kept: Seq<bool>) -> Seq<int>
    decreases kept.len(),
{
    if kept.len() == 0 {
        seq![]
    } else {
        let before = positions_of(kept.drop_last());
        if kept.last() {
            before.push(kept.len() - 1)
        } else {
            before
        }
    }
}

/// The positions found are those of `true`, each once, in ascending order.
pub proof fn law_positions(kept: Seq<bool>)
    ensures
        forall|i: int| #[trigger]
            positions_of(kept).contains(i) <==> 0 <= i < kept.len() && kept[i],
        forall|j: int, k: int|
            0 <= j < k < positions_of(kept).len() ==> (#[trigger] positions_of(kept)[j]) < (
            #[trigger] positions_of(kept)[k]),
    decreases kept.len(),
{
    if kept.len() > 0 {
        let shorter = kept.drop_last();
        law_positions(shorter);
        let before = positions_of(shorter);
        let now = positions_of(kept);
        assert forall|j: int| 0 <= j < before.len() implies 0 <= #[trigger] before[j] < kept.len()
            - 1 by {
            assert(before.contains(before[j]));
        }
        assert forall|i: int| #[trigger]
            now.contains(i) <==> 0 <= i < kept.len() && kept[i] by {
            if now.contains(i) {
                let k = choose|k: int| 0 <= k < now.len() && now[k] == i;
                if k < before.len() {
                    assert(before.contains(i));
                }
            }
            if 0 <= i < kept.len() && kept[i] {
                if i < kept.len() - 1 {
                    assert(shorter[i]);
                    assert(before.contains(i));
                    let k = choose|k: int| 0 <= k < before.len() && before[k] == i;
                    assert(now[k] == i);
                } else {
                    assert(now[before.len() as int] == i);
                }
            }
        }
    } else {
        assert(positions_of(kept) =~= Seq::<int>::empty());
    }
}

/// A scan lists the file.
pub open spec fn scan_keeps(f: FileFacts) -> bool {
    f.is_file && names_dump(text_view(f.name)) && f.stat is Some
}

/// Where a scan places the file in time: by the timestamp of its sidecar (a
/// negative one counts as the start of 1970), else by its last change.
pub open spec fn scan_time(f: FileFacts, unit: StampUnit) -> int {
    match f.metadata.timestamp {
        Some(t) => if t >= 0 {
            stamp_time(t as int, unit)
        } else {
            0
        },
        None => modified_or_epoch(f),
    }
}

/// The second that a scan shows for the file: that of the sidecar's timestamp
/// where it can be shown, else that of the file's place in time.
pub open spec fn scan_second(f: FileFacts, unit: StampUnit) -> int {
    match f.metadata.timestamp {
        Some(t) if showable(second_of(stamp_time(t as int, unit))) => second_of(
            stamp_time(t as int, unit),
        ),
        _ => second_of(scan_time(f, unit)),
    }
}

/// `d` is what a scan shows of the file.
pub open spec fn shown_by_scan(d: DumpView, f: FileFacts, unit: StampUnit) -> bool {
    &&& d.path == f.path@
    &&& is_stamp(d.time, scan_second(f, unit))
    &&& d.title == f.metadata@.title
    &&& f.stat matches Some(s) && d.size == human_size_text(s.len as nat)
    &&& d.tags == f.metadata@.tags
}

/// The positions of the files that a scan lists.
pub open spec fn scan_positions(files: Seq<FileFacts>) -> Seq<int> {
    positions_of(files.map_values(|f: FileFacts| scan_keeps(f)))
}

/// The places in time of the files that a scan lists.
pub open spec fn scan_times(files: Seq<FileFacts>, unit: StampUnit) -> Seq<int> {
    scan_positions(files).map_values(|i: int| scan_time(files[i], unit))
}

/// `list` is what a scan makes of `files`: the files it lists, the newest first.
pub open spec fn is_scan(list: Seq<DumpView>, files: Seq<FileFacts>, unit: StampUnit) -> bool {
    let picked = scan_positions(files);
    exists|order: Seq<int>| #[trigger]
        newest_first(order, scan_times(files, unit)) && list.len() == order.len() && forall|k: int|
            0 <= k < order.len() ==> shown_by_scan(#[trigger] list[k], files[picked[order[k]]], unit)
}

/// The point in time of a timestamp from a sidecar.
pub fn point_of_stamp(t: i64, unit: StampUnit) -> (time: i128)
    ensures
        time == stamp_time(t as int, unit),
{
    match unit {
        StampUnit::Millis => t as i128 * NANOS_PER_MILLI,
        StampUnit::Seconds => t as i128 * NANOS_PER_SECOND,
    }
}

fn copy_bytes(bytes: &Vec<u8>) -> (copy: Vec<u8>)
    ensures
        copy@ == bytes@,
{
    vstd::slice::slice_to_vec(bytes.as_slice())
}

/// The text for a timestamp from a sidecar, where it can be shown.
pub(crate) fn show_stamp(t: i64, unit: StampUnit) -> (text: Option<String>)
    ensures
        text is Some <==> showable(second_of(stamp_time(t as int, unit))),
        text matches Some(s) ==> is_stamp(s@, second_of(stamp_time(t as int, unit))),
{
    let secs: i128 = crate::clock::whole_second(point_of_stamp(t, unit));
    if secs < i64::MIN as i128 || secs > i64::MAX as i128 {
        return None;
    }
    show_second(secs as i64)
}

fn file_modified(f: &FileFacts) -> (t: Option<i128>)
    ensures
        t == modified_of(*f),
{
    match &f.stat {
        Some(s) => s.modified,
        None => None,
    }
}

/// What a scan makes of one file; `None` where it is not listed.
fn scan_file(f: &FileFacts, unit: StampUnit) -> (dump: Option<Dump>)
    requires
        scan_keeps(*f) ==> showable(scan_second(*f, unit)),
    ensures
        dump is Some <==> scan_keeps(*f),
        dump matches Some(d) ==> shown_by_scan(d@, *f, unit) && d.time == scan_time(*f, unit),
{
    if !f.is_file || !is_dump(&f.name) {
        return None;
    }
    match &f.stat {
        None => None,
        Some(stat) => {
            let time: i128 = match f.metadata.timestamp {
                Some(t) => if t >= 0 {
                    point_of_stamp(t, unit)
                } else {
                    0
                },
                None => match stat.modified {
                    Some(m) => m,
                    None => 0,
                },
            };
            let from_stamp: Option<String> = match f.metadata.timestamp {
                Some(t) => show_stamp(t, unit),
                None => None,
            };
            let text = match from_stamp {
                Some(s) => s,
                None => show_time(time),
            };
            let entry = Entry {
                time: text,
                title: f.metadata.title.clone(),
                size: human_size(stat.len),
            };
            Some(
                Dump {
                    path: copy_bytes(&f.path),
                    entry,
                    tags: copy_strings(&f.metadata.tags),
                    time,
                },
            )
        },
    }
}

/// The times that a scan shows can be shown.
pub open spec fn scan_showable(files: Seq<FileFacts>, unit: StampUnit) -> bool {
    forall|i: int|
        0 <= i < files.len() && scan_keeps(#[trigger] files[i]) ==> showable(
            scan_second(files[i], unit),
        )
}

/// Whether the times that a scan shows can be shown.
pub fn can_scan(files: &Vec<FileFacts>, unit: StampUnit) -> (yes: bool)
    ensures
        yes == scan_showable(files@, unit),
{
    let mut i: usize = 0;
    while i < files.len()
        invariant
            i <= files@.len(),
            forall|j: int|
                0 <= j < i && scan_keeps(#[trigger] files@[j]) ==> showable(
                    scan_second(files@[j], unit),
                ),
        decreases files@.len() - i,
    {
        let f = &files[i];
        if f.is_file && is_dump(&f.name) && f.stat.is_some() {
            let shown = match f.metadata.timestamp {
                Some(t) => can_show(point_of_stamp(t, unit)) || t < 0,
                None => match file_modified(f) {
                    Some(m) => can_show(m),
                    None => true,
                },
            };
            if !shown {
                assert(scan_keeps(files@[i as int]));
                return false;
            }
        }
        i = i + 1;
    }
    true
}

/// Lists the dumps among the files of the directory, the newest first.
pub fn scan_dumps(files: &Vec<FileFacts>, unit: StampUnit) -> (list: Listing)
    requires
        scan_showable(files@, unit),
    ensures
        list.wf(),
        is_scan(list@, files@, unit),
{
    let ghost kept = files@.map_values(|f: FileFacts| scan_keeps(f));
    let mut dumps: Vec<Dump> = Vec::new();
    let mut i: usize = 0;
    while i < files.len()
        invariant
            i <= files@.len(),
            kept == files@.map_values(|f: FileFacts| scan_keeps(f)),
            scan_showable(files@, unit),
            dumps@.len() == positions_of(kept.take(i as int)).len(),
            forall|k: int|
                0 <= k < dumps@.len() ==> {
                    let f = files@[positions_of(kept.take(i as int))[k]];
                    shown_by_scan((#[trigger] dumps@[k])@, f, unit) && dumps@[k].time == scan_time(
                        f,
                        unit,
                    )
                },
        decreases files@.len() - i,
    {
        assert(kept.take(i + 1).drop_last() =~= kept.take(i as int));
        if let Some(d) = scan_file(&files[i], unit) {
            dumps.push(d);
        }
        i = i + 1;
    }
    assert(kept.take(kept.len() as int) =~= kept);
    let ghost all = dumps@;
    let list = sort_dumps(dumps);
    proof {
        let picked = scan_positions(files@);
        let order = choose|order: Seq<int>| #[trigger]
            newest_first(order, times_of(all)) && list@ == arranged(all, order);
        assert(times_of(all) =~= scan_times(files@, unit));
        assert forall|k: int| 0 <= k < order.len() implies shown_by_scan(
            #[trigger] list@[k],
            files@[picked[order[k]]],
            unit,
        ) by {
            assert(list@[k] == all[order[k]]@);
        }
        assert(newest_first(order, scan_times(files@, unit)));
    }
    list
}

/// The list at startup takes the file in: any file that is no sidecar.
pub open spec fn startup_keeps(f: FileFacts) -> bool {
    f.is_file && !names_sidecar(text_view(f.name))
}

/// `d` is what the list at startup shows of the file: the time of its last
/// change, and the title of its sidecar or else the one in its name.
pub open spec fn shown_at_startup(d: DumpView, f: FileFacts) -> bool {
    &&& d.path == f.path@
    &&& match modified_of(f) {
        Some(t) => is_stamp(d.time, second_of(t as int)),
        None => d.time == "unknown"@,
    }
    &&& d.title == if f.metadata@.title.len() > 0 {
        f.metadata@.title
    } else {
        title_in_name(f.lossy_name@)
    }
    &&& d.size == human_size_text(
        match f.stat {
            Some(s) => s.len as nat,
            None => 0,
        },
    )
    &&& d.tags == f.metadata@.tags
}

/// The positions of the files that the list at startup takes in.
pub open spec fn startup_positions(files: Seq<FileFacts>) -> Seq<int> {
    positions_of(files.map_values(|f: FileFacts| startup_keeps(f)))
}

/// The places in time of those files.
pub open spec fn startup_times(files: Seq<FileFacts>) -> Seq<int> {
    startup_positions(files).map_values(|i: int| modified_or_epoch(files[i]))
}

/// `list` is the list at startup, the file changed last coming first.
pub open spec fn is_startup(list: Seq<DumpView>, files: Seq<FileFacts>) -> bool {
    let picked = startup_positions(files);
    exists|order: Seq<int>| #[trigger]
        newest_first(order, startup_times(files)) && list.len() == order.len() && forall|k: int|
            0 <= k < order.len() ==> shown_at_startup(#[trigger] list[k], files[picked[order[k]]])
}

fn startup_file(f: &FileFacts) -> (dump: Option<Dump>)
    requires
        startup_keeps(*f) ==> change_showable(*f),
    ensures
        dump is Some <==> startup_keeps(*f),
        dump matches Some(d) ==> shown_at_startup(d@, *f) && d.time == modified_or_epoch(*f),
{
    if !f.is_file || is_sidecar(&f.name) {
        return None;
    }
    let modified: Option<i128> = file_modified(f);
    let time: i128 = match modified {
        Some(t) => t,
        None => 0,
    };
    let text = match modified {
        Some(t) => show_time(t),
        None => "unknown".to_string(),
    };
    let title = if f.metadata.title.as_str().is_empty() {
        title_from_name(&f.lossy_name)
    } else {
        f.metadata.title.clone()
    };
    let len: u64 = match &f.stat {
        Some(s) => s.len,
        None => 0,
    };
    Some(
        Dump {
            path: copy_bytes(&f.path),
            entry: Entry { time: text, title, size: human_size(len) },
            tags: copy_strings(&f.metadata.tags),
            time,
        },
    )
}

/// The time of the file's last change can be shown, where it is known.
pub open spec fn change_showable(f: FileFacts) -> bool {
    modified_of(f) matches Some(t) ==> showable(second_of(t as int))
}

/// Whether the time of the file's last change can be shown, where it is known.
pub fn can_show_change(f: &FileFacts) -> (yes: bool)
    ensures
        yes == change_showable(*f),
{
    match file_modified(f) {
        Some(t) => can_show(t),
        None => true,
    }
}

/// The times that the list at startup shows can be shown.
pub open spec fn startup_showable(files: Seq<FileFacts>) -> bool {
    forall|i: int|
        0 <= i < files.len() && startup_keeps(#[trigger] files[i]) ==> change_showable(files[i])
}

/// Whether the times that the list at startup shows can be shown.
pub fn can_start(files: &Vec<FileFacts>) -> (yes: bool)
    ensures
        yes == startup_showable(files@),
{
    let mut i: usize = 0;
    while i < files.len()
        invariant
            i <= files@.len(),
            forall|j: int|
                0 <= j < i && startup_keeps(#[trigger] files@[j]) ==> change_showable(files@[j]),
        decreases files@.len() - i,
    {
        let f = &files[i];
        if f.is_file && !is_sidecar(&f.name) && !can_show_change(f) {
            assert(startup_keeps(files@[i as int]));
            return false;
        }
        i = i + 1;
    }
    true
}

/// The list at startup: every file but the sidecars, by the time of the last
/// change, the newest first.
pub fn startup_listing(files: &Vec<FileFacts>) -> (list: Listing)
    requires
        startup_showable(files@),
    ensures
        list.wf(),
        is_startup(list@, files@),
{
    let ghost kept = files@.map_values(|f: FileFacts| startup_keeps(f));
    let mut dumps: Vec<Dump> = Vec::new();
    let mut i: usize = 0;
    while i < files.len()
        invariant
            i <= files@.len(),
            kept == files@.map_values(|f: FileFacts| startup_keeps(f)),
            startup_showable(files@),
            dumps@.len() == positions_of(kept.take(i as int)).len(),
            forall|k: int|
                0 <= k < dumps@.len() ==> {
                    let f = files@[positions_of(kept.take(i as int))[k]];
                    shown_at_startup((#[trigger] dumps@[k])@, f) && dumps@[k].time
                        == modified_or_epoch(f)
                },
        decreases files@.len() - i,
    {
        assert(kept.take(i + 1).drop_last() =~= kept.take(i as int));
        if let Some(d) = startup_file(&files[i]) {
            dumps.push(d);
        }
        i = i + 1;
    }
    assert(kept.take(kept.len() as int) =~= kept);
    let ghost all = dumps@;
    let list = sort_dumps(dumps);
    proof {
        let picked = startup_positions(files@);
        let order = choose|order: Seq<int>| #[trigger]
            newest_first(order, times_of(all)) && list@ == arranged(all, order);
        assert(times_of(all) =~= startup_times(files@));
        assert forall|k: int| 0 <= k < order.len() implies shown_at_startup(
            #[trigger] list@[k],
            files@[picked[order[k]]],
        ) by {
            assert(list@[k] == all[order[k]]@);
        }
        assert(newest_first(order, startup_times(files@)));
    }
    list
}

/// An entry can be made for the file when it turns up: it is a file but no
/// sidecar, and the time of its last change is known.
pub open spec fn makes_entry(f: FileFacts) -> bool {
    f.is_file && !names_sidecar(text_view(f.name)) && modified_of(f) is Some
}

/// Whether an entry can be made for the file when it turns up.
pub fn can_make_entry(f: &FileFacts) -> (yes: bool)
    ensures
        yes == makes_entry(*f),
{
    f.is_file && !is_sidecar(&f.name) && file_modified(f).is_some()
}

/// `e` is the entry made from the file alone: the time of its last change, the
/// title in its name, and its size.
pub open spec fn entry_of_file(e: Entry, f: FileFacts) -> bool {
    &&& modified_of(f) matches Some(t) && is_stamp(e.time@, second_of(t as int))
    &&& e.title@ == title_in_name(f.lossy_name@)
    &&& f.stat matches Some(s) && e.size@ == human_size_text(s.len as nat)
}

/// The entry for a file that turned up, and when the file was last changed.
pub fn build_entry_from_path(f: &FileFacts) -> (made: Option<(Entry, i128)>)
    requires
        makes_entry(*f) ==> change_showable(*f),
    ensures
        made is Some <==> makes_entry(*f),
        made matches Some((e, t)) ==> entry_of_file(e, *f) && modified_of(*f) == Some(t)
            && e.time@.len() >= 19,
{
    if !f.is_file || is_sidecar(&f.name) {
        return None;
    }
    match &f.stat {
        None => None,
        Some(stat) => match stat.modified {
            None => None,
            Some(t) => {
                let entry = Entry {
                    time: show_time(t),
                    title: title_from_name(&f.lossy_name),
                    size: human_size(stat.len),
                };
                Some((entry, t))
            },
        },
    }
}

// ---- laws ----

/// No two files have the same path.
pub open spec fn distinct_files(files: Seq<FileFacts>) -> bool {
    forall|i: int, j: int|
        0 <= i < j < files.len() ==> !is_same_path(
            (#[trigger] files[i]).path@,
            (#[trigger] files[j]).path@,
        )
}

proof fn lemma_order_distinct(order: Seq<int>, times: Seq<int>)
    requires
        newest_first(order, times),
    ensures
        order.no_duplicates(),
{
    assert forall|j: int, k: int| 0 <= j < k < order.len() implies order[j] != order[k] by {
        assert(times[order[j]] > times[order[k]] || (times[order[j]] == times[order[k]] && order[j]
            > order[k]));
    }
}

/// An order that puts the newest first takes every position, and none twice.
pub proof fn law_order_is_complete(order: Seq<int>, times: Seq<int>)
    requires
        newest_first(order, times),
    ensures
        order.no_duplicates(),
        forall|i: int| 0 <= i < times.len() ==> #[trigger] order.contains(i),
{
    lemma_order_distinct(order, times);
    let all = vstd::set_lib::set_int_range(0, times.len() as int);
    vstd::set_lib::lemma_int_range(0, times.len() as int);
    let used = order.to_set();
    order.unique_seq_to_set();
    assert(used.subset_of(all)) by {
        assert forall|i: int| #[trigger] used.contains(i) implies all.contains(i) by {
            let k = choose|k: int| 0 <= k < order.len() && order[k] == i;
        }
    }
    vstd::set_lib::lemma_subset_equality(used, all);
    assert forall|i: int| 0 <= i < times.len() implies #[trigger] order.contains(i) by {
        assert(all.contains(i));
        assert(used.contains(i));
    }
}

/// A scan lists every dump, and none twice, as long as no two files have the
/// same path.
pub proof fn law_scan_lists_each_dump_once(
    list: Seq<DumpView>,
    files: Seq<FileFacts>,
    unit: StampUnit,
)
    requires
        is_scan(list, files, unit),
        distinct_files(files),
    ensures
        distinct_paths(list),
        forall|i: int|
            0 <= i < files.len() && scan_keeps(#[trigger] files[i]) ==> exists|k: int|
                0 <= k < list.len() && shown_by_scan(#[trigger] list[k], files[i], unit),
{
    let kept = files.map_values(|f: FileFacts| scan_keeps(f));
    let picked = scan_positions(files);
    let order = choose|order: Seq<int>| #[trigger]
        newest_first(order, scan_times(files, unit)) && list.len() == order.len() && forall|k: int|
            0 <= k < order.len() ==> shown_by_scan(
                #[trigger] list[k],
                files[picked[order[k]]],
                unit,
            );
    law_positions(kept);
    law_order_is_complete(order, scan_times(files, unit));
    assert forall|k: int| 0 <= k < picked.len() implies 0 <= #[trigger] picked[k]
        < files.len() by {
        assert(picked.contains(picked[k]));
    }
    assert forall|j: int, k: int| 0 <= j < k < list.len() implies !is_same_path(
        (#[trigger] list[j]).path,
        (#[trigger] list[k]).path,
    ) by {
        let a = order[j];
        let b = order[k];
        assert(a != b);
        assert(picked[a] != picked[b]);
        if picked[a] < picked[b] {
            assert(!is_same_path(files[picked[a]].path@, files[picked[b]].path@));
        } else {
            assert(!is_same_path(files[picked[b]].path@, files[picked[a]].path@));
        }
    }
    assert forall|i: int| 0 <= i < files.len() && scan_keeps(#[trigger] files[i]) implies exists|
        k: int,
    |
        0 <= k < list.len() && shown_by_scan(#[trigger] list[k], files[i], unit) by {
        assert(kept[i]);
        assert(picked.contains(i));
        let m = choose|m: int| 0 <= m < picked.len() && picked[m] == i;
        assert(order.contains(m));
        let k = choose|k: int| 0 <= k < order.len() && order[k] == m;
        assert(shown_by_scan(list[k], files[i], unit));
    }
}

/// `d` carries every tag of the file's sidecar, in order, and no other.
pub open spec fn has_all_tags(d: DumpView, f: FileFacts) -> bool {
    &&& d.tags.len() == f.metadata.tags@.len()
    &&& forall|i: int|
        0 <= i < d.tags.len() ==> #[trigger] d.tags[i] == f.metadata.tags@[i]@
}

/// The file is a dump by its name: one that ends in `.json` but not in
/// `.metadata.json`, or one that is no valid text.
pub open spec fn named_like_a_dump(f: FileFacts) -> bool {
    match f.name {
        Some(n) => crate::text::has_suffix(n@, ".json"@) && !crate::text::has_suffix(
            n@,
            ".metadata.json"@,
        ),
        None => true,
    }
}

/// Each dump that a scan lists is one of the files, and is listed with its path,
/// its size, and the title and all the tags of its sidecar.
pub proof fn law_scan_shows_the_files(
    list: Seq<DumpView>,
    files: Seq<FileFacts>,
    unit: StampUnit,
    k: int,
) -> (i: int)
    requires
        is_scan(list, files, unit),
        0 <= k < list.len(),
    ensures
        0 <= i < files.len(),
        files[i].is_file,
        named_like_a_dump(files[i]),
        files[i].stat is Some,
        list[k].path == files[i].path@,
        list[k].title == files[i].metadata.title@,
        list[k].size == human_size_text(files[i].stat->0.len as nat),
        has_all_tags(list[k], files[i]),
        shown_by_scan(list[k], files[i], unit),
{
    let kept = files.map_values(|f: FileFacts| scan_keeps(f));
    let picked = scan_positions(files);
    let order = choose|order: Seq<int>| #[trigger]
        newest_first(order, scan_times(files, unit)) && list.len() == order.len() && forall|k: int|
            0 <= k < order.len() ==> shown_by_scan(
                #[trigger] list[k],
                files[picked[order[k]]],
                unit,
            );
    law_positions(kept);
    let i = picked[order[k]];
    assert(0 <= order[k] < picked.len());
    assert(picked.contains(i));
    assert(kept[i] == scan_keeps(files[i]));
    assert(list[k].tags == files[i].metadata@.tags);
    i
}

/// Every file that is named like a dump, and that the file system tells of, is
/// listed by a scan.
pub proof fn law_scan_misses_no_dump(
    list: Seq<DumpView>,
    files: Seq<FileFacts>,
    unit: StampUnit,
    i: int,
) -> (k: int)
    requires
        is_scan(list, files, unit),
        0 <= i < files.len(),
        files[i].is_file,
        named_like_a_dump(files[i]),
        files[i].stat is Some,
    ensures
        0 <= k < list.len(),
        list[k].path == files[i].path@,
        has_all_tags(list[k], files[i]),
{
    let kept = files.map_values(|f: FileFacts| scan_keeps(f));
    let picked = scan_positions(files);
    let order = choose|order: Seq<int>| #[trigger]
        newest_first(order, scan_times(files, unit)) && list.len() == order.len() && forall|k: int|
            0 <= k < order.len() ==> shown_by_scan(
                #[trigger] list[k],
                files[picked[order[k]]],
                unit,
            );
    law_positions(kept);
    law_order_is_complete(order, scan_times(files, unit));
    assert(kept[i]);
    assert(picked.contains(i));
    let m = choose|m: int| 0 <= m < picked.len() && picked[m] == i;
    assert(order.contains(m));
    let k = choose|k: int| 0 <= k < order.len() && order[k] == m;
    assert(shown_by_scan(list[k], files[i], unit));
    assert(list[k].tags == files[i].metadata@.tags);
    k
}

/// A scan lists the newest first: the times of the files behind the list do not
/// rise, and of two files of the same time the one met later comes first.
pub proof fn law_scan_is_newest_first(
    list: Seq<DumpView>,
    files: Seq<FileFacts>,
    unit: StampUnit,
) -> (from: Seq<int>)
    requires
        is_scan(list, files, unit),
    ensures
        from.len() == list.len(),
        forall|k: int| 0 <= k < from.len() ==> 0 <= #[trigger] from[k] < files.len(),
        forall|k: int|
            0 <= k < from.len() ==> shown_by_scan(list[k], #[trigger] files[from[k]], unit),
        forall|j: int, k: int|
            0 <= j < k < from.len() ==> #[trigger] from[j] != #[trigger] from[k] && scan_time(
                files[from[j]],
                unit,
            ) >= scan_time(files[from[k]], unit),
        forall|j: int, k: int|
            0 <= j < k < from.len() && scan_time(files[#[trigger] from[j]], unit) == scan_time(
                files[#[trigger] from[k]],
                unit,
            ) ==> from[j] > from[k],
{
    let kept = files.map_values(|f: FileFacts| scan_keeps(f));
    let picked = scan_positions(files);
    let times = scan_times(files, unit);
    let order = choose|order: Seq<int>| #[trigger]
        newest_first(order, scan_times(files, unit)) && list.len() == order.len() && forall|k: int|
            0 <= k < order.len() ==> shown_by_scan(
                #[trigger] list[k],
                files[picked[order[k]]],
                unit,
            );
    law_positions(kept);
    let from = Seq::new(order.len(), |k: int| picked[order[k]]);
    assert forall|k: int| 0 <= k < from.len() implies 0 <= #[trigger] from[k] < files.len() by {
        assert(0 <= order[k] < picked.len());
        assert(picked.contains(picked[order[k]]));
    }
    assert forall|k: int| 0 <= k < from.len() implies shown_by_scan(
        list[k],
        #[trigger] files[from[k]],
        unit,
    ) by {
        assert(shown_by_scan(list[k], files[picked[order[k]]], unit));
    }
    assert forall|j: int, k: int| 0 <= j < k < from.len() implies #[trigger] from[j]
        != #[trigger] from[k] && scan_time(files[from[j]], unit) >= scan_time(
        files[from[k]],
        unit,
    ) by {
        assert(0 <= order[j] < picked.len() && 0 <= order[k] < picked.len());
        assert(times[order[j]] == scan_time(files[from[j]], unit));
        assert(times[order[k]] == scan_time(files[from[k]], unit));
        assert(times[order[j]] > times[order[k]] || (times[order[j]] == times[order[k]] && order[j]
            > order[k]));
        if order[j] < order[k] {
            assert(picked[order[j]] < picked[order[k]]);
        } else {
            assert(picked[order[k]] < picked[order[j]]);
        }
    }
    assert forall|j: int, k: int|
        0 <= j < k < from.len() && scan_time(files[#[trigger] from[j]], unit) == scan_time(
            files[#[trigger] from[k]],
            unit,
        ) implies from[j] > from[k] by {
        assert(0 <= order[j] < picked.len() && 0 <= order[k] < picked.len());
        assert(times[order[j]] == scan_time(files[from[j]], unit));
        assert(times[order[k]] == scan_time(files[from[k]], unit));
        assert(order[j] > order[k]);
        assert(picked[order[k]] < picked[order[j]]);
    }
    from
}

/// A scan places a file by the timestamp of its sidecar, in the unit asked for,
/// one before 1970 as the start of 1970; without one by its last change, and at
/// the start of 1970 where that is not known.
pub proof fn law_scan_times(f: FileFacts, unit: StampUnit)
    ensures
        f.metadata.timestamp matches Some(t) ==> t >= 0 && unit == StampUnit::Millis ==> scan_time(
            f,
            unit,
        ) == t * 1_000_000,
        f.metadata.timestamp matches Some(t) ==> t >= 0 && unit == StampUnit::Seconds ==> scan_time(
            f,
            unit,
        ) == t * 1_000_000_000,
        f.metadata.timestamp matches Some(t) ==> t < 0 ==> scan_time(f, unit) == 0,
        f.metadata.timestamp is None && f.stat is Some && f.stat->0.modified is Some ==> scan_time(
            f,
            unit,
        ) == f.stat->0.modified->0,
        f.metadata.timestamp is None && (f.stat is None || f.stat->0.modified is None) ==> scan_time(
            f,
            unit,
        ) == 0,
{
}

/// The second that a scan shows is that of the sidecar, in the unit asked for,
/// where it can be shown; without a sidecar time it is that of the last change.
pub proof fn law_second_shown_by_scan(f: FileFacts, unit: StampUnit)
    ensures
        f.metadata.timestamp matches Some(t) ==> unit == StampUnit::Millis ==> showable(
            t as int / 1000,
        ) ==> scan_second(f, unit) == t as int / 1000,
        f.metadata.timestamp matches Some(t) ==> unit == StampUnit::Seconds ==> showable(t as int)
            ==> scan_second(f, unit) == t,
        f.metadata.timestamp is None && f.stat is Some && f.stat->0.modified is Some ==> {
            let s = scan_second(f, unit);
            s * 1_000_000_000 <= f.stat->0.modified->0 < (s + 1) * 1_000_000_000
        },
{
    if let Some(t) = f.metadata.timestamp {
        crate::clock::law_seconds_of_stamps(t as int);
    } else {
        crate::clock::law_second_holds_its_time(modified_or_epoch(f));
    }
}

/// `d` is listed at startup with what is known of the file: its path, its size,
/// the time of its last change, the title of its sidecar or else the one in its
/// name, and every tag of its sidecar in order.
pub open spec fn listed_at_startup(d: DumpView, f: FileFacts) -> bool {
    &&& d.path == f.path@
    &&& has_all_tags(d, f)
    &&& f.metadata.title@.len() > 0 ==> d.title == f.metadata.title@
    &&& f.metadata.title@.len() == 0 ==> d.title == title_in_name(f.lossy_name@)
    &&& f.stat is Some ==> d.size == human_size_text(f.stat->0.len as nat)
    &&& f.stat is None ==> d.size == human_size_text(0)
    &&& f.stat is Some && f.stat->0.modified is Some ==> is_stamp(
        d.time,
        second_of(f.stat->0.modified->0 as int),
    )
    &&& f.stat is None || f.stat->0.modified is None ==> d.time == "unknown"@
}

/// The list at startup holds each file that is no sidecar once, and nothing else,
/// the one changed last coming first. Each is listed with all that is known of
/// it.
pub proof fn law_startup_lists_the_files(list: Seq<DumpView>, files: Seq<FileFacts>) -> (from: Seq<
    int,
>)
    requires
        is_startup(list, files),
    ensures
        from.len() == list.len(),
        from.no_duplicates(),
        forall|k: int|
            0 <= k < from.len() ==> 0 <= #[trigger] from[k] < files.len() && files[from[k]].is_file
                && (files[from[k]].name matches Some(n) ==> !crate::text::has_suffix(
                n@,
                ".metadata.json"@,
            )) && listed_at_startup(list[k], files[from[k]]),
        forall|i: int|
            0 <= i < files.len() && (#[trigger] files[i]).is_file && (files[i].name matches Some(n)
                ==> !crate::text::has_suffix(n@, ".metadata.json"@)) ==> from.contains(i),
        forall|j: int, k: int|
            0 <= j < k < from.len() ==> modified_or_epoch(files[#[trigger] from[j]])
                >= modified_or_epoch(files[#[trigger] from[k]]),
{
    let kept = files.map_values(|f: FileFacts| startup_keeps(f));
    let picked = startup_positions(files);
    let times = startup_times(files);
    let order = choose|order: Seq<int>| #[trigger]
        newest_first(order, startup_times(files)) && list.len() == order.len() && forall|k: int|
            0 <= k < order.len() ==> shown_at_startup(#[trigger] list[k], files[picked[order[k]]]);
    law_positions(kept);
    law_order_is_complete(order, times);
    let from = Seq::new(order.len(), |k: int| picked[order[k]]);
    assert forall|k: int| 0 <= k < from.len() implies 0 <= #[trigger] from[k] < files.len()
        && files[from[k]].is_file && (files[from[k]].name matches Some(n)
        ==> !crate::text::has_suffix(n@, ".metadata.json"@)) && listed_at_startup(
        list[k],
        files[from[k]],
    ) by {
        assert(0 <= order[k] < picked.len());
        assert(picked.contains(picked[order[k]]));
        assert(kept[from[k]] == startup_keeps(files[from[k]]));
        assert(shown_at_startup(list[k], files[picked[order[k]]]));
        assert(list[k].tags == files[from[k]].metadata@.tags);
    }
    assert forall|j: int, k: int| 0 <= j < k < from.len() implies modified_or_epoch(
        files[#[trigger] from[j]],
    ) >= modified_or_epoch(files[#[trigger] from[k]]) by {
        assert(0 <= order[j] < picked.len() && 0 <= order[k] < picked.len());
        assert(times[order[j]] == modified_or_epoch(files[from[j]]));
        assert(times[order[k]] == modified_or_epoch(files[from[k]]));
        assert(times[order[j]] >= times[order[k]]);
    }
    assert forall|j: int, k: int| 0 <= j < from.len() && 0 <= k < from.len() && j
        != k implies from[j] != from[k] by {
        assert(0 <= order[j] < picked.len() && 0 <= order[k] < picked.len());
        assert(order[j] != order[k]);
        if order[j] < order[k] {
            assert(picked[order[j]] < picked[order[k]]);
        } else {
            assert(picked[order[k]] < picked[order[j]]);
        }
    }
    assert forall|i: int|
        0 <= i < files.len() && (#[trigger] files[i]).is_file && (files[i].name matches Some(n)
            ==> !crate::text::has_suffix(n@, ".metadata.json"@)) implies from.contains(i) by {
        assert(kept[i]);
        assert(picked.contains(i));
        let m = choose|m: int| 0 <= m < picked.len() && picked[m] == i;
        assert(order.contains(m));
        let k = choose|k: int| 0 <= k < order.len() && order[k] == m;
        assert(from[k] == i);
    }
    from
}

/// The last change of a file, or the start of 1970.
pub proof fn law_last_change(f: FileFacts)
    ensures
        f.stat is Some && f.stat->0.modified is Some ==> modified_or_epoch(f)
            == f.stat->0.modified->0 && modified_of(f) == f.stat->0.modified,
        f.stat is None || f.stat->0.modified is None ==> modified_or_epoch(f) == 0 && modified_of(f)
            is None,
{
}

/// The list at startup and a scan give a dump the same tags, and the same title
/// where its sidecar has one.
pub proof fn law_startup_and_scan_agree(d: DumpView, e: DumpView, f: FileFacts, unit: StampUnit)
    requires
        shown_at_startup(d, f),
        shown_by_scan(e, f, unit),
    ensures
        d.path == e.path,
        d.tags == e.tags,
        d.size == e.size,
        e.title.len() > 0 ==> d.title == e.title,
{
}

/// An entry is made for exactly the files that are no sidecars and whose last
/// change is known.
pub proof fn law_what_makes_an_entry(f: FileFacts)
    ensures
        makes_entry(f) <==> f.is_file && (f.name matches Some(n) ==> !crate::text::has_suffix(
            n@,
            ".metadata.json"@,
        )) && f.stat is Some && f.stat->0.modified is Some,
{
}

/// The entry for a file alone has the title in its name, its size, and the second
/// of its last change.
pub proof fn law_entry_of_a_file(e: Entry, f: FileFacts, m: i128)
    requires
        entry_of_file(e, f),
        f.stat is Some,
        f.stat->0.modified == Some(m),
    ensures
        e.title@ == title_in_name(f.lossy_name@),
        e.size@ == human_size_text(f.stat->0.len as nat),
        exists|s: int|
            s * 1_000_000_000 <= m < (s + 1) * 1_000_000_000 && #[trigger] is_stamp(e.time@, s),
{
    crate::clock::law_second_holds_its_time(m as int);
    assert(is_stamp(e.time@, second_of(m as int)));
}

/// Files whose times are known and can be shown can always be listed, at startup
/// and by a scan.
pub proof fn law_ordinary_files_can_be_listed(files: Seq<FileFacts>, unit: StampUnit)
    requires
        forall|i: int|
            0 <= i < files.len() ==> (#[trigger] files[i]).metadata.timestamp is None
                && files[i].stat is Some && files[i].stat->0.modified is Some && showable(
                second_of(files[i].stat->0.modified->0 as int),
            ),
    ensures
        scan_showable(files, unit),
        startup_showable(files),
{
}

/// What is listed at startup, as the function gives it: as many dumps as there
/// are files but sidecars, each with all the tags of its sidecar.
pub proof fn law_listed_tags(files: &Vec<FileFacts>, unit: StampUnit, start: Listing, scan: Listing)
    requires
        call_ensures(startup_listing, (files,), start),
        call_ensures(scan_dumps, (files, unit), scan),
    ensures
        forall|k: int|
            0 <= k < start@.len() ==> exists|i: int|
                0 <= i < files@.len() && has_all_tags(#[trigger] start@[k], #[trigger] files@[i]),
        forall|k: int|
            0 <= k < scan@.len() ==> exists|i: int|
                0 <= i < files@.len() && has_all_tags(#[trigger] scan@[k], #[trigger] files@[i]),
        scan@.len() <= start@.len() <= files@.len(),
{
    let from = law_startup_lists_the_files(start@, files@);
    assert forall|k: int| 0 <= k < start@.len() implies exists|i: int|
        0 <= i < files@.len() && has_all_tags(#[trigger] start@[k], #[trigger] files@[i]) by {
        assert(0 <= from[k] < files@.len());
        assert(has_all_tags(start@[k], files@[from[k]]));
    }
    assert forall|k: int| 0 <= k < scan@.len() implies exists|i: int|
        0 <= i < files@.len() && has_all_tags(#[trigger] scan@[k], #[trigger] files@[i]) by {
        let i = law_scan_shows_the_files(scan@, files@, unit, k);
        assert(has_all_tags(scan@[k], files@[i]));
    }
    let scan_kept = files@.map_values(|f: FileFacts| scan_keeps(f));
    let start_kept = files@.map_values(|f: FileFacts| startup_keeps(f));
    lemma_fewer_positions(scan_kept, start_kept);
}

proof fn lemma_fewer_positions(few: Seq<bool>, many: Seq<bool>)
    requires
        few.len() == many.len(),
        forall|i: int| 0 <= i < few.len() ==> (#[trigger] few[i] ==> many[i]),
    ensures
        positions_of(few).len() <= positions_of(many).len() <= many.len(),
    decreases few.len(),
{
    if few.len() > 0 {
        let n = few.len() - 1;
        assert(few[n] ==> many[n]);
        let (a, b) = (few.drop_last(), many.drop_last());
        assert forall|i: int| 0 <= i < a.len() && #[trigger] a[i] implies b[i] by {
            assert(few[i]);
        }
        lemma_fewer_positions(a, b);
    }
}

} // verus!
