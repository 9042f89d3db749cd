//! The state of the viewer, and what happens to it when files come and go.

use vstd::prelude::*;
use crate::clock::{is_stamp, second_of, showable};
use crate::listing::{
    build_entry_from_path, can_make_entry, can_scan, can_show_change, change_showable,
    distinct_files, distinct_paths, dump_view, is_scan, makes_entry, modified_of, point_of_stamp,
    position_of, scan_dumps, scan_showable, scan_time, show_stamp, stamp_time, DumpView, FileFacts, Listing,
};
use crate::metadata::StampUnit;
use crate::names::{is_same_path, path_within, title_in_name, within};
use crate::size::human_size_text;
use crate::tags::{in_use, passes, passes_filter, TagSet};

verus! {

/// The two programs that show dumps.
#[derive(Debug, Clone, Copy, PartialEq, Eq, Structural)]
pub enum Viewer {
    /// The one that runs together with the server.
    Embedded,
    /// The one that runs by itself.
    Standalone,
}

/// The box that the arrow keys work on.
#[derive(Debug, Clone, Copy, PartialEq, Eq, Structural)]
pub enum Focus {
    Tags,
    Dumps,
}

/// What becomes of the preview.
#[derive(Debug, Clone, Copy, PartialEq, Eq, Structural)]
pub enum Preview {
    /// It stays.
    Keep,
    /// There is nothing to show.
    Clear,
    /// It is read from the dump at this position.
    Load(usize),
}

/// When a listed dump was made, as the file system has it now.
#[derive(Debug)]
pub struct KnownTime {
    /// The timestamp of its sidecar.
    pub timestamp: Option<i64>,
    /// When it was last changed.
    pub modified: Option<i128>,
}

/// A file that turned up or changed.
#[derive(Debug)]
pub struct Arrival {
    pub file: FileFacts,
    /// The times of the dumps in the list, in the order of the list.
    pub known: Vec<KnownTime>,
}

/// Something that happened in the dumps directory.
#[derive(Debug)]
pub enum WatchEvent {
    Created(Arrival),
    Modified(Arrival),
    Removed(Vec<u8>),
    /// The directory has to be read anew; these are its files.
    Rescan(Vec<FileFacts>),
}

/// The state of the viewer.
#[derive(Debug)]
pub struct Browser {
    pub viewer: Viewer,
    pub listing: Listing,
    /// The tags picked for filtering.
    pub selected_tags: TagSet,
    /// The position of the selected dump in the list.
    pub selected: Option<usize>,
    /// Whether a dump needs all the picked tags or any one of them.
    pub match_all: bool,
    pub focus: Focus,
    /// The position of the cursor in the list of tags.
    pub tags_selected: Option<usize>,
}

/// The unit of the timestamps that the viewer works with.
pub open spec fn unit_of(viewer: Viewer) -> StampUnit {
    match viewer {
        Viewer::Embedded => StampUnit::Millis,
        Viewer::Standalone => StampUnit::Seconds,
    }
}

impl Viewer {
    /// The unit of the timestamps that the viewer works with.
    pub fn unit(self) -> (unit: StampUnit)
        ensures
            unit == unit_of(self),
    {
        match self {
            Viewer::Embedded => StampUnit::Millis,
            Viewer::Standalone => StampUnit::Seconds,
        }
    }
}

/// Where a listed dump stands in time: by its sidecar unless that says nothing
/// or a time before 1970, else by its last change.
pub open spec fn known_time(known: KnownTime, unit: StampUnit) -> int {
    match known.timestamp {
        Some(t) if t >= 0 => stamp_time(t as int, unit),
        _ => match known.modified {
            Some(m) => m as int,
            None => 0,
        },
    }
}

pub open spec fn known_times(known: Seq<KnownTime>, unit: StampUnit) -> Seq<int> {
    known.map_values(|k: KnownTime| known_time(k, unit))
}

/// The time by which a file that turned up is placed: the timestamp of its
/// sidecar unless there is none or it is before 1970; else its last change.
pub open spec fn arrival_time(f: FileFacts, unit: StampUnit) -> int {
    match f.metadata.timestamp {
        Some(t) if t >= 0 => stamp_time(t as int, unit),
        _ => match modified_of(f) {
            Some(m) => m as int,
            None => 0,
        },
    }
}

/// The second that is shown for a file that turned up: that of the timestamp of
/// its sidecar where it can be shown; else that of its last change.
pub open spec fn arrival_second(f: FileFacts, unit: StampUnit) -> int {
    match f.metadata.timestamp {
        Some(t) if showable(second_of(stamp_time(t as int, unit))) => second_of(
            stamp_time(t as int, unit),
        ),
        _ => match modified_of(f) {
            Some(m) => second_of(m as int),
            None => 0,
        },
    }
}

/// `d` is what is shown of a file that turned up, under the path `path`.
pub open spec fn shown_on_arrival(
    d: DumpView,
    path: Seq<u8>,
    f: FileFacts,
    unit: StampUnit,
) -> bool {
    &&& d.path == path
    &&& is_stamp(d.time, arrival_second(f, unit))
    &&& d.title == if f.metadata@.title.len() > 0 {
        f.metadata@.title
    } else {
        title_in_name(f.lossy_name@)
    }
    &&& f.stat matches Some(s) && d.size == human_size_text(s.len as nat)
    &&& d.tags == f.metadata@.tags
}

/// The first position whose time is older than `time`; the end where there is
/// none.
pub open spec fn first_older(time: int, times: Seq<int>) -> int
    decreases times.len(),
{
    if times.len() == 0 || time > times[0] {
        0
    } else {
        1 + first_older(time, times.skip(1))
    }
}

/// The selection once a dump was put in at `at`: it stays on its dump.
pub open spec fn after_insert(selected: Option<usize>, at: int) -> Option<usize> {
    match selected {
        Some(s) if s >= at => Some((s + 1) as usize),
        _ => selected,
    }
}

/// The selection, and what becomes of the preview, once the dump at `at` was
/// taken out and `left` dumps are left: the selection stays on its dump; if
/// that was the one taken out it goes to the one before.
pub open spec fn after_remove(selected: Option<usize>, at: int, left: nat) -> (
    Option<usize>,
    Preview,
) {
    match selected {
        Some(s) if s == at => if left == 0 {
            (None, Preview::Clear)
        } else if at == 0 {
            (Some(0), Preview::Load(0))
        } else {
            (Some((at - 1) as usize), Preview::Load((at - 1) as usize))
        },
        Some(s) if s > at => (Some((s - 1) as usize), Preview::Keep),
        _ => (selected, Preview::Keep),
    }
}

/// The selection, and what becomes of the preview, once a new dump was put in
/// at `at`. The embedded viewer goes to the top of the list if the new dump
/// passes the filter; the other one only if nothing was selected.
pub open spec fn after_arrival(
    viewer: Viewer,
    selected: Option<usize>,
    at: int,
    passed: bool,
) -> (Option<usize>, Preview) {
    let shifted = after_insert(selected, at);
    let jumps = match viewer {
        Viewer::Embedded => passed,
        Viewer::Standalone => shifted is None,
    };
    if jumps {
        (Some(0), Preview::Load(0))
    } else {
        (shifted, Preview::Keep)
    }
}

/// The selection, and what becomes of the preview, once the list was read anew
/// and has `len` dumps.
pub open spec fn after_rescan(selected: Option<usize>, len: nat) -> (Option<usize>, Preview) {
    if len == 0 {
        (None, Preview::Clear)
    } else {
        match selected {
            Some(s) if s < len => (selected, Preview::Load(s)),
            _ => (Some(0), Preview::Load(0)),
        }
    }
}

/// Where the directory was read anew, no two of its files have the same path.
pub open spec fn tells_files_apart(ev: WatchEvent) -> bool {
    ev matches WatchEvent::Rescan(files) ==> distinct_files(files@)
}

impl Browser {
    /// The list is in order and the selection lies in it.
    pub open spec fn wf(&self) -> bool {
        &&& self.listing.wf()
        &&& self.selected matches Some(i) ==> i < self.listing@.len()
    }

    /// What an event does to the picked tags, the mode and the cursor when it
    /// concerns a single file: nothing.
    pub open spec fn same_controls(&self, other: &Browser) -> bool {
        &&& self.viewer == other.viewer
        &&& self.match_all == other.match_all
        &&& self.focus == other.focus
        &&& self.tags_selected == other.tags_selected
    }

    /// `self` is `before` without the dump at `path`.
    pub open spec fn is_without(&self, before: &Browser, path: Seq<u8>, preview: Preview) -> bool {
        &&& self.same_controls(before)
        &&& self.selected_tags == before.selected_tags
        &&& match position_of(before.listing@, path) {
            Some(at) => {
                &&& self.listing@ == before.listing@.remove(at as int)
                &&& (self.selected, preview) == after_remove(
                    before.selected,
                    at as int,
                    self.listing@.len(),
                )
            },
            None => {
                &&& self.listing@ == before.listing@
                &&& self.selected == before.selected
                &&& preview == Preview::Keep
            },
        }
    }

    /// `self` is `before` with the file taken in: its dump is brought up to date
    /// where it is listed, else put in before the first older one.
    pub open spec fn is_with(&self, before: &Browser, a: Arrival, preview: Preview) -> bool {
        &&& self.same_controls(before)
        &&& self.selected_tags == before.selected_tags
        &&& match position_of(before.listing@, a.file.path@) {
            Some(at) => {
                &&& self.listing@ == before.listing@.update(at as int, self.listing@[at as int])
                &&& shown_on_arrival(
                    self.listing@[at as int],
                    before.listing@[at as int].path,
                    a.file,
                    unit_of(before.viewer),
                )
                &&& self.selected == before.selected
                &&& preview == if before.selected == Some(at) {
                    Preview::Load(at)
                } else {
                    Preview::Keep
                }
            },
            None => {
                let unit = unit_of(before.viewer);
                let at = first_older(arrival_time(a.file, unit), known_times(a.known@, unit));
                &&& self.listing@ == before.listing@.insert(at, self.listing@[at])
                &&& shown_on_arrival(self.listing@[at], a.file.path@, a.file, unit)
                &&& (self.selected, preview) == after_arrival(
                    before.viewer,
                    before.selected,
                    at,
                    passes(before.selected_tags@, a.file.metadata@.tags, before.match_all),
                )
            },
        }
    }

    /// `self` is `before` after the news of a file: nothing for a file outside
    /// the dumps directory; else the file is taken in, or taken out where no
    /// entry can be made for it.
    pub open spec fn has_news(
        &self,
        before: &Browser,
        a: Arrival,
        dumps_dir: Seq<u8>,
        preview: Preview,
    ) -> bool {
        if !within(a.file.path@, dumps_dir) {
            self == before && preview == Preview::Keep
        } else if makes_entry(a.file) {
            self.is_with(before, a, preview)
        } else {
            self.is_without(before, a.file.path@, preview)
        }
    }

    /// `self` is `before` after the directory was read anew.
    pub open spec fn is_rescanned(
        &self,
        before: &Browser,
        files: Seq<FileFacts>,
        preview: Preview,
    ) -> bool {
        &&& self.same_controls(before)
        &&& is_scan(self.listing@, files, unit_of(before.viewer))
        &&& forall|t: Seq<char>| #[trigger]
            self.selected_tags@.contains(t) <==> before.selected_tags@.contains(t) && in_use(
                crate::listing::tag_rows(self.listing@),
                t,
            )
        &&& (self.selected, preview) == after_rescan(before.selected, self.listing@.len())
    }

    /// `self` is `before` after the event.
    pub open spec fn follows(
        &self,
        before: &Browser,
        ev: WatchEvent,
        dumps_dir: Seq<u8>,
        preview: Preview,
    ) -> bool {
        match ev {
            WatchEvent::Created(a) | WatchEvent::Modified(a) => self.has_news(
                before,
                a,
                dumps_dir,
                preview,
            ),
            WatchEvent::Removed(path) => self.is_without(before, path@, preview),
            WatchEvent::Rescan(files) => self.is_rescanned(before, files@, preview),
        }
    }

    /// The three columns of the list have the same length, no path is listed
    /// twice, and the selection lies in the list.
    pub open spec fn is_sound(&self) -> bool {
        self.wf() && distinct_paths(self.listing@)
    }

    /// The event can be applied: it tells the times of all listed dumps, and the
    /// times that will be shown can be shown.
    pub open spec fn accepts(&self, ev: WatchEvent, dumps_dir: Seq<u8>) -> bool {
        match ev {
            WatchEvent::Created(a) | WatchEvent::Modified(a) => {
                &&& a.known@.len() == self.listing@.len()
                &&& within(a.file.path@, dumps_dir) && makes_entry(a.file) ==> change_showable(
                    a.file,
                )
            },
            WatchEvent::Removed(_) => true,
            WatchEvent::Rescan(files) => scan_showable(files@, unit_of(self.viewer)),
        }
    }

    /// Whether an event can be applied.
    pub fn can_accept(&self, ev: &WatchEvent, dumps_dir: &Vec<u8>) -> (yes: bool)
        ensures
            yes == self.accepts(*ev, dumps_dir@),
    {
        match ev {
            WatchEvent::Created(a) => self.can_take(a, dumps_dir),
            WatchEvent::Modified(a) => self.can_take(a, dumps_dir),
            WatchEvent::Removed(_) => true,
            WatchEvent::Rescan(files) => can_scan(files, self.viewer.unit()),
        }
    }

    fn can_take(&self, a: &Arrival, dumps_dir: &Vec<u8>) -> (yes: bool)
        ensures
            yes == self.accepts(WatchEvent::Created(*a), dumps_dir@),
    {
        if a.known.len() != self.listing.len() {
            return false;
        }
        !path_within(&a.file.path, dumps_dir) || !can_make_entry(&a.file) || can_show_change(&a.file)
    }

    /// The viewer as it starts, and what becomes of the preview: on the first
    /// dump, with no tag picked.
    pub fn new(viewer: Viewer, listing: Listing) -> (started: (Browser, Preview))
        requires
            listing.wf(),
        ensures
            started.0.wf(),
            started.0.viewer == viewer,
            started.0.listing == listing,
            started.0.selected_tags@ == Set::<Seq<char>>::empty(),
            started.0.match_all,
            started.0.focus == Focus::Dumps,
            started.0.tags_selected is None,
            (started.0.selected, started.1) == if listing@.len() == 0 {
                (None::<usize>, Preview::Clear)
            } else {
                (Some(0usize), Preview::Load(0))
            },
    {
        let (selected, preview): (Option<usize>, Preview) = if listing.is_empty() {
            (None, Preview::Clear)
        } else {
            (Some(0), Preview::Load(0))
        };
        let browser = Browser {
            viewer,
            listing,
            selected_tags: TagSet::new(),
            selected,
            match_all: true,
            focus: Focus::Dumps,
            tags_selected: None,
        };
        (browser, preview)
    }

    /// Takes the dump at `path` out of the list, if it is there.
    fn forget(&mut self, path: &Vec<u8>) -> (preview: Preview)
        requires
            old(self).wf(),
        ensures
            final(self).wf(),
            final(self).is_without(old(self), path@, preview),
    {
        match self.listing.position(path) {
            None => Preview::Keep,
            Some(at) => {
                proof {
                    self.listing.lemma_len();
                    crate::listing::law_position(self.listing@, path@);
                }
                self.listing.remove(at);
                match self.selected {
                    Some(s) => if s == at {
                        if self.listing.is_empty() {
                            self.selected = None;
                            Preview::Clear
                        } else {
                            let before: usize = if at == 0 {
                                0
                            } else {
                                at - 1
                            };
                            self.selected = Some(before);
                            Preview::Load(before)
                        }
                    } else if s > at {
                        self.selected = Some(s - 1);
                        Preview::Keep
                    } else {
                        Preview::Keep
                    },
                    None => Preview::Keep,
                }
            },
        }
    }

    /// Takes the news of a file in.
    fn take_news(&mut self, a: Arrival, dumps_dir: &Vec<u8>) -> (preview: Preview)
        requires
            old(self).wf(),
            old(self).accepts(WatchEvent::Created(a), dumps_dir@),
        ensures
            final(self).wf(),
            final(self).has_news(old(self), a, dumps_dir@, preview),
    {
        if !path_within(&a.file.path, dumps_dir) {
            return Preview::Keep;
        }
        let unit = self.viewer.unit();
        match build_entry_from_path(&a.file) {
            None => self.forget(&a.file.path),
            Some((made, modified)) => {
                let mut entry = made;
                let mut time: i128 = modified;
                if !a.file.metadata.title.as_str().is_empty() {
                    entry.title = a.file.metadata.title.clone();
                }
                if let Some(t) = a.file.metadata.timestamp {
                    if let Some(text) = show_stamp(t, unit) {
                        entry.time = text;
                    }
                    if t >= 0 {
                        time = point_of_stamp(t, unit);
                    }
                }
                proof {
                    self.listing.lemma_len();
                    crate::listing::law_position(self.listing@, a.file.path@);
                }
                let ghost facts = a.file;
                match self.listing.position(&a.file.path) {
                    Some(at) => {
                        let Arrival { file, known } = a;
                        let ghost path = self.listing@[at as int].path;
                        let ghost d = dump_view(path, entry, facts.metadata.tags@);
                        self.listing.update(at, entry, file.metadata.tags);
                        assert(self.listing@[at as int] == d);
                        assert(shown_on_arrival(d, path, facts, unit));
                        if self.selected == Some(at) {
                            Preview::Load(at)
                        } else {
                            Preview::Keep
                        }
                    },
                    None => {
                        let at: usize = place_for(time, &a.known, unit);
                        let Arrival { file, known } = a;
                        let passed = passes_filter(
                            &self.selected_tags,
                            &file.metadata.tags,
                            self.match_all,
                        );
                        let ghost d = dump_view(facts.path@, entry, facts.metadata.tags@);
                        self.listing.insert(at, file.path, entry, file.metadata.tags);
                        assert(self.listing@[at as int] == d);
                        assert(shown_on_arrival(d, facts.path@, facts, unit));
                        if let Some(s) = self.selected {
                            if s >= at {
                                self.selected = Some(s + 1);
                            }
                        }
                        let jumps = match self.viewer {
                            Viewer::Embedded => passed,
                            Viewer::Standalone => self.selected.is_none(),
                        };
                        if jumps {
                            self.selected = Some(0);
                            Preview::Load(0)
                        } else {
                            Preview::Keep
                        }
                    },
                }
            },
        }
    }

    /// Applies what happened in the dumps directory, and says what becomes of
    /// the preview.
    pub fn apply_watch_event(&mut self, ev: WatchEvent, dumps_dir: &Vec<u8>) -> (preview: Preview)
        requires
            old(self).wf(),
            old(self).accepts(ev, dumps_dir@),
        ensures
            final(self).wf(),
            final(self).follows(old(self), ev, dumps_dir@, preview),
            old(self).is_sound() && tells_files_apart(ev) ==> final(self).is_sound(),
    {
        let preview = self.react(ev, dumps_dir);
        proof {
            if old(self).is_sound() && tells_files_apart(ev) {
                law_events_keep_paths_distinct(old(self), self, ev, dumps_dir@, preview);
            }
        }
        preview
    }

    fn react(&mut self, ev: WatchEvent, dumps_dir: &Vec<u8>) -> (preview: Preview)
        requires
            old(self).wf(),
            old(self).accepts(ev, dumps_dir@),
        ensures
            final(self).wf(),
            final(self).follows(old(self), ev, dumps_dir@, preview),
    {
        match ev {
            WatchEvent::Created(a) => self.take_news(a, dumps_dir),
            WatchEvent::Modified(a) => self.take_news(a, dumps_dir),
            WatchEvent::Removed(path) => self.forget(&path),
            WatchEvent::Rescan(files) => {
                self.listing = scan_dumps(&files, self.viewer.unit());
                proof {
                    self.listing.lemma_tag_rows();
                }
                self.selected_tags.retain_used(&self.listing.tags_vec);
                if self.listing.is_empty() {
                    self.selected = None;
                    return Preview::Clear;
                }
                match self.selected {
                    Some(s) => if s < self.listing.len() {
                        Preview::Load(s)
                    } else {
                        self.selected = Some(0);
                        Preview::Load(0)
                    },
                    None => {
                        self.selected = Some(0);
                        Preview::Load(0)
                    },
                }
            },
        }
    }
}

fn time_of_known(known: &KnownTime, unit: StampUnit) -> (time: i128)
    ensures
        time == known_time(*known, unit),
{
    if let Some(t) = known.timestamp {
        if t >= 0 {
            return point_of_stamp(t, unit);
        }
    }
    match known.modified {
        Some(m) => m,
        None => 0,
    }
}

/// Where a dump of the given time goes: before the first older one.
fn place_for(time: i128, known: &Vec<KnownTime>, unit: StampUnit) -> (at: usize)
    ensures
        at == first_older(time as int, known_times(known@, unit)),
        at <= known@.len(),
{
    let ghost times = known_times(known@, unit);
    let mut i: usize = 0;
    assert(times.skip(0) == times);
    while i < known.len()
        invariant
            i <= known@.len(),
            times == known_times(known@, unit),
            first_older(time as int, times) == i + first_older(time as int, times.skip(i as int)),
        decreases known@.len() - i,
    {
        assert(times.skip(i as int).skip(1) =~= times.skip(i + 1));
        if time > time_of_known(&known[i], unit) {
            return i;
        }
        i = i + 1;
    }
    i
}

// ---- laws ----

/// Times that do not rise.
pub open spec fn falling(times: Seq<int>) -> bool {
    forall|i: int, j: int| 0 <= i < j < times.len() ==> times[i] >= times[j]
}

proof fn lemma_first_older(time: int, times: Seq<int>)
    ensures
        0 <= first_older(time, times) <= times.len(),
        forall|i: int| 0 <= i < first_older(time, times) ==> #[trigger] times[i] >= time,
        first_older(time, times) < times.len() ==> times[first_older(time, times)] < time,
    decreases times.len(),
{
    if times.len() > 0 && time <= times[0] {
        lemma_first_older(time, times.skip(1));
        assert forall|i: int| 0 <= i < first_older(time, times) implies #[trigger] times[i]
            >= time by {
            if i > 0 {
                assert(times[i] == times.skip(1)[i - 1]);
            }
        }
    }
}

/// A dump put in by its time leaves a list with the newest first in that order.
pub proof fn law_arrival_keeps_newest_first(time: int, times: Seq<int>)
    requires
        falling(times),
    ensures
        0 <= first_older(time, times) <= times.len(),
        falling(times.insert(first_older(time, times), time)),
{
    lemma_first_older(time, times);
    let at = first_older(time, times);
    let longer = times.insert(at, time);
    assert forall|i: int, j: int| 0 <= i < j < longer.len() implies longer[i] >= longer[j] by {
        if i < at {
            assert(longer[i] == times[i]);
        } else if i > at {
            assert(longer[i] == times[i - 1]);
        }
        if j > at {
            assert(longer[j] == times[j - 1]);
            if i == at && j - 1 > at {
                assert(times[at] >= times[j - 1]);
            }
        } else if j < at {
            assert(longer[j] == times[j]);
        }
    }
}

/// The times of the listed dumps once the arrival was put in before the first
/// older one.
pub open spec fn times_with(a: Arrival, unit: StampUnit) -> Seq<int> {
    let times = known_times(a.known@, unit);
    let new = KnownTime { timestamp: a.file.metadata.timestamp, modified: modified_of(a.file) };
    times.insert(first_older(arrival_time(a.file, unit), times), known_time(new, unit))
}

/// A list with the newest first stays one when a dump comes in.
pub proof fn law_list_stays_newest_first(a: Arrival, unit: StampUnit)
    requires
        falling(known_times(a.known@, unit)),
    ensures
        falling(times_with(a, unit)),
{
    law_arrival_keeps_newest_first(arrival_time(a.file, unit), known_times(a.known@, unit));
}

/// The news of a file never puts a path into the list twice.
pub proof fn law_news_keeps_paths_distinct(
    before: &Browser,
    after: &Browser,
    a: Arrival,
    dumps_dir: Seq<u8>,
    preview: Preview,
)
    requires
        distinct_paths(before.listing@),
        a.known@.len() == before.listing@.len(),
        after.has_news(before, a, dumps_dir, preview),
    ensures
        distinct_paths(after.listing@),
{
    before.listing.lemma_len();
    let list = before.listing@;
    let path = a.file.path@;
    crate::listing::law_position(list, path);
    if within(path, dumps_dir) {
        if makes_entry(a.file) {
            match position_of(list, path) {
                Some(at) => {
                    assert(is_same_path(list[at as int].path, path));
                    assert(after.listing@[at as int].path == list[at as int].path);
                    assert forall|i: int, j: int| 0 <= i < j < after.listing@.len() implies !is_same_path(
                        (#[trigger] after.listing@[i]).path,
                        (#[trigger] after.listing@[j]).path,
                    ) by {
                        assert(!is_same_path(list[i].path, list[j].path));
                    }
                },
                None => {
                    let unit = unit_of(before.viewer);
                    let times = known_times(a.known@, unit);
                    lemma_first_older(arrival_time(a.file, unit), times);
                    let at = first_older(arrival_time(a.file, unit), times);
                    assert forall|i: int, j: int| 0 <= i < j < after.listing@.len() implies !is_same_path(
                        (#[trigger] after.listing@[i]).path,
                        (#[trigger] after.listing@[j]).path,
                    ) by {
                        let x = if i < at { i } else { i - 1 };
                        let y = if j < at { j } else { j - 1 };
                        if i != at && j != at {
                            assert(!is_same_path(list[x].path, list[y].path));
                        } else if i == at {
                            assert(!is_same_path(list[y].path, path));
                        } else {
                            assert(!is_same_path(list[x].path, path));
                        }
                    }
                },
            }
        } else {
            law_removal_keeps_paths_distinct(before, after, path, preview);
        }
    }
}

/// Taking a dump out keeps the paths of the others distinct, and the dump is
/// gone for good.
pub proof fn law_removal_keeps_paths_distinct(
    before: &Browser,
    after: &Browser,
    path: Seq<u8>,
    preview: Preview,
)
    requires
        distinct_paths(before.listing@),
        after.is_without(before, path, preview),
    ensures
        distinct_paths(after.listing@),
        position_of(after.listing@, path) is None,
{
    before.listing.lemma_len();
    after.listing.lemma_len();
    let list = before.listing@;
    crate::listing::law_position(list, path);
    crate::listing::law_position(after.listing@, path);
    if let Some(at) = position_of(list, path) {
        assert forall|i: int, j: int| 0 <= i < j < after.listing@.len() implies !is_same_path(
            (#[trigger] after.listing@[i]).path,
            (#[trigger] after.listing@[j]).path,
        ) by {
            let x = if i < at { i } else { i + 1 };
            let y = if j < at { j } else { j + 1 };
            assert(!is_same_path(list[x].path, list[y].path));
        }
        if let Some(k) = position_of(after.listing@, path) {
            let x = if k < at { k as int } else { k + 1 };
            assert(is_same_path(list[x].path, path));
            assert(is_same_path(list[at as int].path, path));
            if x < at {
                assert(!is_same_path(list[x].path, list[at as int].path));
            } else {
                assert(!is_same_path(list[at as int].path, list[x].path));
            }
        }
    }
}

/// No event puts a path into the list twice.
pub proof fn law_events_keep_paths_distinct(
    before: &Browser,
    after: &Browser,
    ev: WatchEvent,
    dumps_dir: Seq<u8>,
    preview: Preview,
)
    requires
        distinct_paths(before.listing@),
        tells_files_apart(ev),
        before.accepts(ev, dumps_dir),
        after.follows(before, ev, dumps_dir, preview),
    ensures
        distinct_paths(after.listing@),
{
    match ev {
        WatchEvent::Created(a) | WatchEvent::Modified(a) => {
            law_news_keeps_paths_distinct(before, after, a, dumps_dir, preview);
        },
        WatchEvent::Removed(path) => {
            law_removal_keeps_paths_distinct(before, after, path@, preview);
        },
        WatchEvent::Rescan(files) => {
            crate::listing::law_scan_lists_each_dump_once(
                after.listing@,
                files@,
                unit_of(before.viewer),
            );
        },
    }
}

/// The selection stays on its dump while another one is taken out.
pub proof fn law_selection_survives_removal(
    before: &Browser,
    after: &Browser,
    path: Seq<u8>,
    preview: Preview,
)
    requires
        before.wf(),
        after.is_without(before, path, preview),
        before.selected matches Some(s) && !is_same_path(before.listing@[s as int].path, path),
    ensures
        after.selected matches Some(s) && s < after.listing@.len() && after.listing@[s as int]
            == before.listing@[before.selected->0 as int],
        preview == Preview::Keep,
{
    before.listing.lemma_len();
    crate::listing::law_position(before.listing@, path);
}

/// The selection stays on its dump while another one comes in, unless the
/// viewer goes to the top.
pub proof fn law_selection_survives_arrival(
    before: &Browser,
    after: &Browser,
    a: Arrival,
    preview: Preview,
)
    requires
        before.wf(),
        a.known@.len() == before.listing@.len(),
        after.is_with(before, a, preview),
        position_of(before.listing@, a.file.path@) is None,
        before.selected is Some,
        before.viewer == Viewer::Standalone || !passes(
            before.selected_tags@,
            a.file.metadata@.tags,
            before.match_all,
        ),
    ensures
        after.selected matches Some(s) && s < after.listing@.len() && after.listing@[s as int]
            == before.listing@[before.selected->0 as int],
        preview == Preview::Keep,
{
    let unit = unit_of(before.viewer);
    let times = known_times(a.known@, unit);
    lemma_first_older(arrival_time(a.file, unit), times);
    after.listing.lemma_len();
}

/// A dump that comes in and is taken out again leaves the list as it was.
pub proof fn law_removal_undoes_arrival(
    before: &Browser,
    with: &Browser,
    after: &Browser,
    a: Arrival,
    first: Preview,
    second: Preview,
)
    requires
        a.known@.len() == before.listing@.len(),
        position_of(before.listing@, a.file.path@) is None,
        with.is_with(before, a, first),
        after.is_without(with, a.file.path@, second),
    ensures
        after.listing@ == before.listing@,
{
    let list = before.listing@;
    let path = a.file.path@;
    let unit = unit_of(before.viewer);
    let times = known_times(a.known@, unit);
    lemma_first_older(arrival_time(a.file, unit), times);
    let at = first_older(arrival_time(a.file, unit), times);
    before.listing.lemma_len();
    with.listing.lemma_len();
    crate::listing::law_position(list, path);
    crate::listing::law_position(with.listing@, path);
    assert(with.listing@[at].path == path);
    let found = position_of(with.listing@, path)->0 as int;
    if found < at {
        assert(with.listing@[found] == list[found]);
    } else if found > at {
        assert(with.listing@[found] == list[found - 1]);
    }
    assert(after.listing@ =~= list);
}

/// Telling the embedded viewer of a dump that it shows puts the selection on the
/// first line of the list.
pub proof fn law_visible_arrival_is_selected(
    before: &Browser,
    after: &Browser,
    a: Arrival,
    preview: Preview,
)
    requires
        before.viewer == Viewer::Embedded,
        position_of(before.listing@, a.file.path@) is None,
        after.is_with(before, a, preview),
        passes(before.selected_tags@, a.file.metadata@.tags, before.match_all),
    ensures
        after.selected == Some(0usize),
        preview == Preview::Load(0),
{
}

/// Where a dump stands in time, wherever that is asked: at the timestamp of its
/// sidecar, in the viewer's unit, unless there is none or it is before 1970; else
/// at its last change.
pub proof fn law_times_of_dumps(f: FileFacts, k: KnownTime, unit: StampUnit, t: i64)
    requires
        f.metadata.timestamp == Some(t),
        k.timestamp == Some(t),
        k.modified == modified_of(f),
    ensures
        known_time(k, unit) == arrival_time(f, unit),
        t >= 0 && unit == StampUnit::Millis ==> arrival_time(f, unit) == t * 1_000_000,
        t >= 0 && unit == StampUnit::Seconds ==> arrival_time(f, unit) == t * 1_000_000_000,
        t >= 0 ==> scan_time(f, unit) == arrival_time(f, unit),
        t < 0 && f.stat is Some && f.stat->0.modified is Some ==> arrival_time(f, unit)
            == f.stat->0.modified->0,
{
}

/// Without a sidecar time a dump stands at its last change.
pub proof fn law_times_without_sidecar(f: FileFacts, k: KnownTime, unit: StampUnit, m: i128)
    requires
        f.metadata.timestamp is None,
        k.timestamp is None,
        k.modified == Some(m),
        f.stat is Some,
        f.stat->0.modified == Some(m),
    ensures
        known_time(k, unit) == m,
        arrival_time(f, unit) == m,
        scan_time(f, unit) == m,
{
}

/// The second shown for a dump that comes in is that of its sidecar, in the
/// viewer's unit, where that can be shown; it is that of its last change where
/// it has no sidecar time.
pub proof fn law_second_shown_on_arrival(f: FileFacts, m: i128)
    requires
        f.stat is Some,
        f.stat->0.modified == Some(m),
    ensures
        f.metadata.timestamp is None ==> {
            let s = arrival_second(f, StampUnit::Millis);
            s * 1_000_000_000 <= m < (s + 1) * 1_000_000_000
        },
        f.metadata.timestamp matches Some(t) ==> showable(t as int / 1000) ==> arrival_second(
            f,
            StampUnit::Millis,
        ) == t as int / 1000,
        f.metadata.timestamp matches Some(t) ==> showable(t as int) ==> arrival_second(
            f,
            StampUnit::Seconds,
        ) == t,
{
    if let Some(t) = f.metadata.timestamp {
        crate::clock::law_seconds_of_stamps(t as int);
    } else {
        crate::clock::law_second_holds_its_time(m as int);
    }
}

/// The event takes the dump at `path` out: it was removed, or it turned up within
/// the directory as something that no entry can be made for.
pub open spec fn takes_out(ev: WatchEvent, dumps_dir: Seq<u8>, path: Seq<u8>) -> bool {
    match ev {
        WatchEvent::Removed(p) => p@ == path,
        WatchEvent::Created(a) | WatchEvent::Modified(a) => a.file.path@ == path && within(
            path,
            dumps_dir,
        ) && !makes_entry(a.file),
        WatchEvent::Rescan(_) => false,
    }
}

/// `at` is the first place of the path in the list.
pub open spec fn first_place(list: Seq<DumpView>, path: Seq<u8>, at: int) -> bool {
    &&& 0 <= at < list.len()
    &&& is_same_path(list[at].path, path)
    &&& forall|k: int| 0 <= k < at ==> !is_same_path((#[trigger] list[k]).path, path)
}

proof fn lemma_position_is(list: Seq<DumpView>, path: Seq<u8>, at: int)
    requires
        list.len() <= usize::MAX,
        first_place(list, path, at),
    ensures
        position_of(list, path) == Some(at as usize),
{
    crate::listing::law_position(list, path);
    if let Some(i) = position_of(list, path) {
        if i < at {
            assert(!is_same_path(list[i as int].path, path));
        }
    }
}

/// Taking a dump out leaves every other one, in order.
pub proof fn law_removal_leaves_the_others(
    before: &Browser,
    after: &Browser,
    ev: WatchEvent,
    dumps_dir: Seq<u8>,
    path: Seq<u8>,
    at: int,
    preview: Preview,
)
    requires
        takes_out(ev, dumps_dir, path),
        first_place(before.listing@, path, at),
        after.follows(before, ev, dumps_dir, preview),
    ensures
        after.listing@.len() == before.listing@.len() - 1,
        forall|k: int| 0 <= k < at ==> #[trigger] after.listing@[k] == before.listing@[k],
        forall|k: int|
            at <= k < after.listing@.len() ==> #[trigger] after.listing@[k]
                == before.listing@[k + 1],
{
    before.listing.lemma_len();
    lemma_position_is(before.listing@, path, at);
}

/// Taking out a path that is not listed changes nothing.
pub proof fn law_removal_of_nothing(
    before: &Browser,
    after: &Browser,
    ev: WatchEvent,
    dumps_dir: Seq<u8>,
    path: Seq<u8>,
    preview: Preview,
)
    requires
        takes_out(ev, dumps_dir, path),
        forall|k: int|
            0 <= k < before.listing@.len() ==> !is_same_path(
                (#[trigger] before.listing@[k]).path,
                path,
            ),
        after.follows(before, ev, dumps_dir, preview),
    ensures
        after.listing@ == before.listing@,
        after.selected == before.selected,
        preview == Preview::Keep,
{
    before.listing.lemma_len();
    crate::listing::law_position(before.listing@, path);
}

/// When the selected dump is taken out, the one that stood directly before it is
/// selected, or the one behind it where it was the first, and its preview is
/// read; where it was the only one, none is selected and the preview is cleared.
pub proof fn law_removed_selection_goes_to_its_neighbour(
    before: &Browser,
    after: &Browser,
    ev: WatchEvent,
    dumps_dir: Seq<u8>,
    path: Seq<u8>,
    s: usize,
    preview: Preview,
)
    requires
        takes_out(ev, dumps_dir, path),
        before.selected == Some(s),
        first_place(before.listing@, path, s as int),
        after.follows(before, ev, dumps_dir, preview),
    ensures
        s > 0 ==> (after.selected matches Some(n) && n < after.listing@.len()
            && after.listing@[n as int] == before.listing@[s - 1] && preview == Preview::Load(n)),
        s == 0 && before.listing@.len() > 1 ==> (after.selected matches Some(n) && n
            < after.listing@.len() && after.listing@[n as int] == before.listing@[1] && preview
            == Preview::Load(n)),
        before.listing@.len() == 1 ==> after.selected is None && preview == Preview::Clear,
{
    before.listing.lemma_len();
    lemma_position_is(before.listing@, path, s as int);
}

/// While another dump is taken out the selection stays where it is: on the same
/// dump, or on none.
pub proof fn law_removal_keeps_another_selection(
    before: &Browser,
    after: &Browser,
    ev: WatchEvent,
    dumps_dir: Seq<u8>,
    path: Seq<u8>,
    preview: Preview,
)
    requires
        before.wf(),
        takes_out(ev, dumps_dir, path),
        before.selected matches Some(s) ==> !is_same_path(before.listing@[s as int].path, path),
        after.follows(before, ev, dumps_dir, preview),
    ensures
        preview == Preview::Keep,
        before.selected is None ==> after.selected is None,
        before.selected matches Some(s) ==> (after.selected matches Some(n) && n
            < after.listing@.len() && after.listing@[n as int] == before.listing@[s as int]),
{
    if before.selected is Some {
        law_selection_survives_removal(before, after, path, preview);
    }
}

/// The event brings the news of a file that an entry is made for.
pub open spec fn brings(ev: WatchEvent, dumps_dir: Seq<u8>, a: Arrival) -> bool {
    &&& ev == WatchEvent::Created(a) || ev == WatchEvent::Modified(a)
    &&& within(a.file.path@, dumps_dir)
    &&& makes_entry(a.file)
}

/// `d` shows the file: the title of its sidecar or else the one in its name, its
/// size, and every tag of its sidecar in order.
pub open spec fn shows_file(d: DumpView, f: FileFacts) -> bool {
    &&& f.metadata.title@.len() > 0 ==> d.title == f.metadata.title@
    &&& f.metadata.title@.len() == 0 ==> d.title == title_in_name(f.lossy_name@)
    &&& d.size == human_size_text(f.stat->0.len as nat)
    &&& d.tags.len() == f.metadata.tags@.len()
    &&& forall|i: int|
        0 <= i < d.tags.len() ==> #[trigger] d.tags[i] == f.metadata.tags@[i]@
}

/// A file that is not listed comes in at one place: behind every dump that is
/// not older, before one that is. The others stay, in order, and it is shown
/// with what is known of it.
pub proof fn law_new_dump_comes_in(
    before: &Browser,
    after: &Browser,
    ev: WatchEvent,
    dumps_dir: Seq<u8>,
    a: Arrival,
    preview: Preview,
) -> (at: int)
    requires
        brings(ev, dumps_dir, a),
        a.known@.len() == before.listing@.len(),
        forall|k: int|
            0 <= k < before.listing@.len() ==> !is_same_path(
                (#[trigger] before.listing@[k]).path,
                a.file.path@,
            ),
        after.follows(before, ev, dumps_dir, preview),
    ensures
        0 <= at <= before.listing@.len(),
        after.listing@.len() == before.listing@.len() + 1,
        forall|k: int| 0 <= k < at ==> #[trigger] after.listing@[k] == before.listing@[k],
        forall|k: int|
            at < k < after.listing@.len() ==> #[trigger] after.listing@[k]
                == before.listing@[k - 1],
        after.listing@[at].path == a.file.path@,
        shows_file(after.listing@[at], a.file),
        is_stamp(after.listing@[at].time, arrival_second(a.file, unit_of(before.viewer))),
        forall|k: int|
            0 <= k < at ==> known_time(#[trigger] a.known@[k], unit_of(before.viewer))
                >= arrival_time(a.file, unit_of(before.viewer)),
        at < a.known@.len() ==> known_time(a.known@[at], unit_of(before.viewer)) < arrival_time(
            a.file,
            unit_of(before.viewer),
        ),
{
    before.listing.lemma_len();
    crate::listing::law_position(before.listing@, a.file.path@);
    let unit = unit_of(before.viewer);
    let times = known_times(a.known@, unit);
    lemma_first_older(arrival_time(a.file, unit), times);
    let at = first_older(arrival_time(a.file, unit), times);
    assert forall|k: int| 0 <= k < at implies known_time(#[trigger] a.known@[k], unit)
        >= arrival_time(a.file, unit) by {
        assert(times[k] == known_time(a.known@[k], unit));
    }
    if at < a.known@.len() {
        assert(times[at] == known_time(a.known@[at], unit));
    }
    let tags = after.listing@[at].tags;
    assert(tags == a.file.metadata@.tags);
    at
}

/// Where the selection is once a new dump came in: the embedded viewer goes to
/// the first line if the new dump passes the filter, the other viewer if nothing
/// was selected; else the selection stays where it was, and so does the preview.
pub proof fn law_selection_after_new_dump(
    before: &Browser,
    after: &Browser,
    ev: WatchEvent,
    dumps_dir: Seq<u8>,
    a: Arrival,
    preview: Preview,
)
    requires
        before.wf(),
        brings(ev, dumps_dir, a),
        a.known@.len() == before.listing@.len(),
        forall|k: int|
            0 <= k < before.listing@.len() ==> !is_same_path(
                (#[trigger] before.listing@[k]).path,
                a.file.path@,
            ),
        after.follows(before, ev, dumps_dir, preview),
    ensures
        ({
            let passed = passes(before.selected_tags@, a.file.metadata@.tags, before.match_all);
            let jumps = if before.viewer == Viewer::Embedded {
                passed
            } else {
                before.selected is None
            };
            &&& jumps ==> after.selected == Some(0usize) && preview == Preview::Load(0)
            &&& !jumps ==> preview == Preview::Keep
            &&& !jumps && before.selected is None ==> after.selected is None
            &&& !jumps && before.selected is Some ==> (after.selected matches Some(n) && n
                < after.listing@.len() && after.listing@[n as int]
                == before.listing@[before.selected->0 as int])
        }),
{
    before.listing.lemma_len();
    after.listing.lemma_len();
    crate::listing::law_position(before.listing@, a.file.path@);
    let unit = unit_of(before.viewer);
    lemma_first_older(arrival_time(a.file, unit), known_times(a.known@, unit));
}

/// The news of a listed dump changes what is shown of it and nothing else: its
/// place and its path stay, and so do the other dumps and the selection. Its
/// preview is read anew exactly if it is the selected one.
pub proof fn law_news_of_a_listed_dump(
    before: &Browser,
    after: &Browser,
    ev: WatchEvent,
    dumps_dir: Seq<u8>,
    a: Arrival,
    at: int,
    preview: Preview,
)
    requires
        brings(ev, dumps_dir, a),
        first_place(before.listing@, a.file.path@, at),
        after.follows(before, ev, dumps_dir, preview),
    ensures
        after.listing@.len() == before.listing@.len(),
        forall|k: int|
            0 <= k < after.listing@.len() && k != at ==> #[trigger] after.listing@[k]
                == before.listing@[k],
        after.listing@[at].path == before.listing@[at].path,
        shows_file(after.listing@[at], a.file),
        is_stamp(after.listing@[at].time, arrival_second(a.file, unit_of(before.viewer))),
        after.selected == before.selected,
        preview == Preview::Load(at as usize) <==> before.selected == Some(at as usize),
        preview == Preview::Keep <==> before.selected != Some(at as usize),
{
    before.listing.lemma_len();
    lemma_position_is(before.listing@, a.file.path@, at);
    assert(after.listing@[at].tags == a.file.metadata@.tags);
}

/// A file outside the dumps directory is no news.
pub proof fn law_files_elsewhere_change_nothing(
    before: &Browser,
    after: &Browser,
    ev: WatchEvent,
    dumps_dir: Seq<u8>,
    a: Arrival,
    preview: Preview,
)
    requires
        ev == WatchEvent::Created(a) || ev == WatchEvent::Modified(a),
        !within(a.file.path@, dumps_dir),
        after.follows(before, ev, dumps_dir, preview),
    ensures
        after == before,
        preview == Preview::Keep,
{
}

/// No event touches the mode, the focus or the cursor, and only reading the
/// directory anew touches the picked tags.
pub proof fn law_events_leave_the_controls(
    before: &Browser,
    after: &Browser,
    ev: WatchEvent,
    dumps_dir: Seq<u8>,
    preview: Preview,
)
    requires
        after.follows(before, ev, dumps_dir, preview),
    ensures
        after.viewer == before.viewer,
        after.match_all == before.match_all,
        after.focus == before.focus,
        after.tags_selected == before.tags_selected,
        !(ev is Rescan) ==> after.selected_tags@ == before.selected_tags@,
{
}

/// After the directory was read anew, a tag is picked exactly if it was and some
/// listed dump carries it. The selection stays at its place where there still is
/// one, else it goes to the first dump; its preview is read. In an empty list
/// nothing is selected.
pub proof fn law_reading_anew(
    before: &Browser,
    after: &Browser,
    files: Vec<FileFacts>,
    dumps_dir: Seq<u8>,
    preview: Preview,
)
    requires
        after.follows(before, WatchEvent::Rescan(files), dumps_dir, preview),
    ensures
        forall|t: Seq<char>| #[trigger]
            after.selected_tags@.contains(t) ==> before.selected_tags@.contains(t),
        forall|t: Seq<char>, i: int|
            #![trigger before.selected_tags@.contains(t), after.listing@[i]]
            before.selected_tags@.contains(t) && 0 <= i < after.listing@.len()
                && after.listing@[i].tags.contains(t) ==> after.selected_tags@.contains(t),
        forall|t: Seq<char>| #[trigger]
            after.selected_tags@.contains(t) ==> exists|i: int|
                0 <= i < after.listing@.len() && (#[trigger] after.listing@[i]).tags.contains(t),
        after.listing@.len() == 0 <==> after.selected is None,
        after.listing@.len() == 0 ==> preview == Preview::Clear,
        after.selected matches Some(n) ==> preview == Preview::Load(n),
        after.selected matches Some(n) ==> n < after.listing@.len(),
        before.selected matches Some(s) ==> s < after.listing@.len() ==> after.selected == Some(s),
        after.listing@.len() > 0 && (before.selected is None || before.selected->0
            >= after.listing@.len()) ==> after.selected == Some(0usize),
{
    let rows = crate::listing::tag_rows(after.listing@);
    assert forall|t: Seq<char>, i: int|
        #![trigger before.selected_tags@.contains(t), after.listing@[i]]
        before.selected_tags@.contains(t) && 0 <= i < after.listing@.len()
            && after.listing@[i].tags.contains(t) implies after.selected_tags@.contains(t) by {
        assert(rows[i].contains(t));
        assert(in_use(rows, t));
    }
    assert forall|t: Seq<char>| #[trigger] after.selected_tags@.contains(t) implies exists|i: int|
        0 <= i < after.listing@.len() && (#[trigger] after.listing@[i]).tags.contains(t) by {
        assert(in_use(rows, t));
        let i = choose|i: int| 0 <= i < rows.len() && (#[trigger] rows[i]).contains(t);
        assert(after.listing@[i].tags.contains(t));
    }
}

/// Reading the directory anew lists what a scan lists, in the viewer's unit:
/// milliseconds in the embedded viewer, seconds in the other.
pub proof fn law_reading_anew_scans(
    before: &Browser,
    after: &Browser,
    files: Vec<FileFacts>,
    dumps_dir: Seq<u8>,
    preview: Preview,
)
    requires
        after.follows(before, WatchEvent::Rescan(files), dumps_dir, preview),
    ensures
        before.viewer == Viewer::Embedded ==> is_scan(after.listing@, files@, StampUnit::Millis),
        before.viewer == Viewer::Standalone ==> is_scan(after.listing@, files@, StampUnit::Seconds),
{
}

/// The event of a file whose last change can be shown is always accepted, with
/// the times of the listed dumps; and so is every removal.
pub proof fn law_ordinary_events_are_accepted(
    b: &Browser,
    a: Arrival,
    path: Vec<u8>,
    dumps_dir: Seq<u8>,
    m: i128,
)
    requires
        a.known@.len() == b.listing@.len(),
        a.file.stat is Some,
        a.file.stat->0.modified == Some(m),
        showable(second_of(m as int)),
    ensures
        b.accepts(WatchEvent::Created(a), dumps_dir),
        b.accepts(WatchEvent::Modified(a), dumps_dir),
        b.accepts(WatchEvent::Removed(path), dumps_dir),
{
}

/// A viewer starts on the first dump of its list, with its preview read, nothing
/// picked, all picked tags to match and the dumps in focus; on an empty list with
/// nothing selected.
pub proof fn law_start(viewer: Viewer, listing: Listing, started: (Browser, Preview))
    requires
        call_ensures(Browser::new, (viewer, listing), started),
    ensures
        started.0.viewer == viewer,
        started.0.listing@ == listing@,
        forall|t: Seq<char>| !#[trigger] started.0.selected_tags@.contains(t),
        started.0.match_all,
        started.0.focus == Focus::Dumps,
        started.0.tags_selected is None,
        listing@.len() > 0 ==> started.0.selected == Some(0usize) && started.1 == Preview::Load(0),
        listing@.len() == 0 ==> started.0.selected is None && started.1 == Preview::Clear,
{
}

} // verus!
