//! The short list: every file of a directory in one line each, with a preview
//! that is pretty-printed where it is JSON.

use vstd::prelude::*;
use vstd::utf8::{decode_utf8, valid_utf8};
use crate::clock::{is_stamp, second_of, show_time};
use crate::json::{json_pretty, pretty_text};
use crate::keys::{one_down, one_up, step_from, KeyPress};
use crate::listing::{
    arranged, can_show_change, change_showable, modified_of, modified_or_epoch, newest_first,
    positions_of, sort_dumps, times_of, Dump, DumpView, Entry, FileFacts, Listing,
};
use crate::preview::{head_of, head_text, Reading};
use crate::size::{short_size, short_size_text};
use crate::text::{join2, text_view};

verus! {

/// `d` is what the short list shows of the file: its name, the time of its last
/// change and its size.
pub open spec fn shown_in_short(d: DumpView, f: FileFacts) -> bool {
    &&& d.path == f.path@
    &&& match modified_of(f) {
        Some(t) => is_stamp(d.time, second_of(t as int)),
        None => d.time == "unknown"@,
    }
    &&& d.title == f.lossy_name@
    &&& d.size == short_size_text(
        match f.stat {
            Some(s) => s.len as nat,
            None => 0,
        },
    )
    &&& d.tags.len() == 0
}

/// The positions of the files among what is in the directory.
pub open spec fn file_positions(files: Seq<FileFacts>) -> Seq<int> {
    positions_of(files.map_values(|f: FileFacts| f.is_file))
}

/// The times of their last changes.
pub open spec fn file_times(files: Seq<FileFacts>) -> Seq<int> {
    file_positions(files).map_values(|i: int| modified_or_epoch(files[i]))
}

/// `list` is the short list, the file changed last coming first.
pub open spec fn is_short(list: Seq<DumpView>, files: Seq<FileFacts>) -> bool {
    let picked = file_positions(files);
    exists|order: Seq<int>| #[trigger]
        newest_first(order, file_times(files)) && list.len() == order.len() && forall|k: int|
            0 <= k < order.len() ==> shown_in_short(#[trigger] list[k], files[picked[order[k]]])
}

fn short_file(f: &FileFacts) -> (dump: Dump)
    requires
        change_showable(*f),
    ensures
        shown_in_short(dump@, *f),
        dump.time == modified_or_epoch(*f),
{
    let modified: Option<i128> = match &f.stat {
        Some(s) => s.modified,
        None => None,
    };
    let len: u64 = match &f.stat {
        Some(s) => s.len,
        None => 0,
    };
    let (text, time): (String, i128) = match modified {
        Some(t) => (show_time(t), t),
        None => ("unknown".to_string(), 0),
    };
    Dump {
        path: vstd::slice::slice_to_vec(f.path.as_slice()),
        entry: Entry { time: text, title: f.lossy_name.clone(), size: short_size(len) },
        tags: Vec::new(),
        time,
    }
}

/// The times that the short list shows can be shown.
pub open spec fn short_showable(files: Seq<FileFacts>) -> bool {
    forall|i: int| 0 <= i < files.len() && (#[trigger] files[i]).is_file ==> change_showable(files[i])
}

/// Whether the times that the short list shows can be shown.
pub fn can_list_short(files: &Vec<FileFacts>) -> (yes: bool)
    ensures
        yes == short_showable(files@),
{
    let mut i: usize = 0;
    while i < files.len()
        invariant
            i <= files@.len(),
            forall|j: int|
                0 <= j < i && (#[trigger] files@[j]).is_file ==> change_showable(files@[j]),
        decreases files@.len() - i,
    {
        if files[i].is_file && !can_show_change(&files[i]) {
            assert(files@[i as int].is_file);
            return false;
        }
        i = i + 1;
    }
    true
}

/// The short list of the files in a directory.
pub fn short_listing(files: &Vec<FileFacts>) -> (list: Listing)
    requires
        short_showable(files@),
    ensures
        list.wf(),
        is_short(list@, files@),
{
    let ghost kept = files@.map_values(|f: FileFacts| f.is_file);
    let mut dumps: Vec<Dump> = Vec::new();
    let mut i: usize = 0;
    while i < files.len()
        invariant
            i <= files@.len(),
            kept == files@.map_values(|f: FileFacts| f.is_file),
            short_showable(files@),
            dumps@.len() == positions_of(kept.take(i as int)).len(),
            forall|k: int|
                0 <= k < dumps@.len() ==> {
                    let f = files@[positions_of(kept.take(i as int))[k]];
                    shown_in_short((#[trigger] dumps@[k])@, f) && dumps@[k].time
                        == modified_or_epoch(f)
                },
        decreases files@.len() - i,
    {
        assert(kept.take(i + 1).drop_last() =~= kept.take(i as int));
        if files[i].is_file {
            dumps.push(short_file(&files[i]));
        }
        i = i + 1;
    }
    assert(kept.take(kept.len() as int) =~= kept);
    let ghost all = dumps@;
    let list = sort_dumps(dumps);
    proof {
        let picked = file_positions(files@);
        let order = choose|order: Seq<int>| #[trigger]
            newest_first(order, times_of(all)) && list@ == arranged(all, order);
        assert(times_of(all) =~= file_times(files@));
        assert forall|k: int| 0 <= k < order.len() implies shown_in_short(
            #[trigger] list@[k],
            files@[picked[order[k]]],
        ) by {
            assert(list@[k] == all[order[k]]@);
        }
        assert(newest_first(order, file_times(files@)));
    }
    list
}

/// The line of a file in the short list.
pub open spec fn short_line_of(name: Seq<char>, time: Seq<char>, size: Seq<char>) -> Seq<char> {
    name + "  \u{2014}  "@ + time + "  ("@ + size + ")"@
}

/// The line of a file in the short list.
pub fn short_line(entry: &Entry) -> (line: String)
    ensures
        line@ == short_line_of(entry.title@, entry.time@, entry.size@),
{
    let mut line = join2(&entry.title, "  \u{2014}  ");
    line.append(&entry.time);
    line.append("  (");
    line.append(&entry.size);
    line.append(")");
    line
}

/// What the short list shows of a file, given the pretty-printed form of what
/// was read where it is JSON.
pub open spec fn short_preview_of(reading: Reading, pretty: Option<Seq<char>>) -> Seq<char> {
    match reading {
        Reading::Bytes(bytes) => if valid_utf8(head_of(bytes@)) {
            match pretty {
                Some(text) => text,
                None => decode_utf8(head_of(bytes@)),
            }
        } else {
            ""@
        },
        Reading::Failed(why) => "failed to read preview: "@ + why@,
    }
}

/// The text, pretty-printed where there is such a form.
pub fn prefer_pretty(text: String, pretty: Option<String>) -> (shown: String)
    ensures
        shown@ == match text_view(pretty) {
            Some(p) => p,
            None => text@,
        },
{
    match pretty {
        Some(p) => p,
        None => text,
    }
}

/// What the short list shows of a file: the beginning of it, pretty-printed
/// where it is a JSON document.
pub fn short_preview(reading: Reading) -> (text: String)
    ensures
        text@ == short_preview_of(
            reading,
            match reading {
                Reading::Bytes(bytes) => pretty_text(head_of(bytes@)),
                Reading::Failed(_) => None,
            },
        ),
{
    proof {
        reveal_strlit("");
    }
    match reading {
        Reading::Bytes(bytes) => match head_text(bytes) {
            Some(text) => {
                let pretty = json_pretty(text.as_str().as_bytes());
                prefer_pretty(text, pretty)
            },
            None => join2("", ""),
        },
        Reading::Failed(why) => join2("failed to read preview: ", &why),
    }
}

/// What a key does in the short list.
#[derive(Debug, Clone, Copy, PartialEq, Eq, Structural)]
pub enum ShortEffect {
    Quit,
    /// The file at this position is selected; its preview is read.
    Select(usize),
    /// The file at this position is opened in the pager; then its preview is
    /// read anew.
    Open(usize),
    Nothing,
}

/// What a key does in a short list of `len` files, with the one at `selected`
/// selected: `q` and Esc leave, the arrows go around the ends, Enter opens the
/// file.
pub open spec fn short_effect(selected: usize, len: nat, key: KeyPress) -> ShortEffect {
    match key {
        KeyPress::Esc => ShortEffect::Quit,
        KeyPress::Char(c) => if c == 'q' {
            ShortEffect::Quit
        } else {
            ShortEffect::Nothing
        },
        KeyPress::Up => ShortEffect::Select(one_up(Some(selected), len) as usize),
        KeyPress::Down => ShortEffect::Select(one_down(Some(selected), len) as usize),
        KeyPress::Enter => ShortEffect::Open(selected),
        KeyPress::Left | KeyPress::Right | KeyPress::Interrupt | KeyPress::Other => {
            ShortEffect::Nothing
        },
    }
}

/// What a key does in a short list.
pub fn short_step(selected: usize, len: usize, key: KeyPress) -> (step: ShortEffect)
    requires
        selected < len,
    ensures
        step == short_effect(selected, len as nat, key),
        step matches ShortEffect::Select(i) ==> i < len,
{
    match key {
        KeyPress::Esc => ShortEffect::Quit,
        KeyPress::Char(c) => match c {
            'q' => ShortEffect::Quit,
            _ => ShortEffect::Nothing,
        },
        KeyPress::Up => ShortEffect::Select(step_from(Some(selected), len, true)),
        KeyPress::Down => ShortEffect::Select(step_from(Some(selected), len, false)),
        KeyPress::Enter => ShortEffect::Open(selected),
        KeyPress::Left => ShortEffect::Nothing,
        KeyPress::Right => ShortEffect::Nothing,
        KeyPress::Interrupt => ShortEffect::Nothing,
        KeyPress::Other => ShortEffect::Nothing,
    }
}

// ---- laws ----

/// The short list holds each file once, and nothing else, the one changed last
/// coming first. Each is listed with its name, its path, its size and the time of
/// its last change.
pub proof fn law_short_list_holds_the_files(list: Seq<DumpView>, files: Seq<FileFacts>) -> (
    from: Seq<int>)
    requires
        is_short(list, files),
    ensures
        from.len() == list.len(),
        from.no_duplicates(),
        forall|k: int|
            0 <= k < from.len() ==> 0 <= #[trigger] from[k] < files.len() && files[from[k]].is_file
                && list[k].path == files[from[k]].path@ && list[k].title
                == files[from[k]].lossy_name@ && list[k].size == short_size_text(
                if files[from[k]].stat is Some {
                    files[from[k]].stat->0.len as nat
                } else {
                    0
                },
            ) && (modified_of(files[from[k]]) matches Some(t) ==> is_stamp(
                list[k].time,
                second_of(t as int),
            )) && (modified_of(files[from[k]]) is None ==> list[k].time == "unknown"@),
        forall|i: int|
            0 <= i < files.len() && (#[trigger] files[i]).is_file ==> from.contains(i),
        forall|j: int, k: int|
            0 <= j < k < from.len() ==> modified_or_epoch(files[#[trigger] from[j]])
                >= modified_or_epoch(files[#[trigger] from[k]]),
{
    let kept = files.map_values(|f: FileFacts| f.is_file);
    let picked = file_positions(files);
    let times = file_times(files);
    let order = choose|order: Seq<int>| #[trigger]
        newest_first(order, file_times(files)) && list.len() == order.len() && forall|k: int|
            0 <= k < order.len() ==> shown_in_short(#[trigger] list[k], files[picked[order[k]]]);
    crate::listing::law_positions(kept);
    crate::listing::law_order_is_complete(order, times);
    let from = Seq::new(order.len(), |k: int| picked[order[k]]);
    assert forall|k: int| 0 <= k < from.len() implies 0 <= #[trigger] from[k] < files.len()
        && files[from[k]].is_file && shown_in_short(list[k], files[from[k]]) by {
        assert(0 <= order[k] < picked.len());
        assert(picked.contains(picked[order[k]]));
        assert(kept[from[k]] == files[from[k]].is_file);
        assert(shown_in_short(list[k], files[picked[order[k]]]));
    }
    assert forall|j: int, k: int| 0 <= j < k < from.len() implies modified_or_epoch(
        files[#[trigger] from[j]],
    ) >= modified_or_epoch(files[#[trigger] from[k]]) by {
        assert(0 <= order[j] < picked.len() && 0 <= order[k] < picked.len());
        assert(times[order[j]] == modified_or_epoch(files[from[j]]));
        assert(times[order[k]] == modified_or_epoch(files[from[k]]));
        assert(times[order[j]] >= times[order[k]]);
    }
    assert forall|j: int, k: int| 0 <= j < from.len() && 0 <= k < from.len() && j
        != k implies from[j] != from[k] by {
        assert(0 <= order[j] < picked.len() && 0 <= order[k] < picked.len());
        assert(order[j] != order[k]);
        if order[j] < order[k] {
            assert(picked[order[j]] < picked[order[k]]);
        } else {
            assert(picked[order[k]] < picked[order[j]]);
        }
    }
    assert forall|i: int| 0 <= i < files.len() && (#[trigger] files[i]).is_file implies
        from.contains(i) by {
        assert(kept[i]);
        assert(picked.contains(i));
        let m = choose|m: int| 0 <= m < picked.len() && picked[m] == i;
        assert(order.contains(m));
        let k = choose|k: int| 0 <= k < order.len() && order[k] == m;
        assert(from[k] == i);
    }
    from
}

/// Down goes to the next file and from the last to the first; Up takes it back.
/// Only Esc and `q` leave, and only Enter opens a file, the selected one.
pub proof fn law_short_keys(selected: usize, len: usize, key: KeyPress)
    requires
        selected < len,
    ensures
        short_effect(selected, len as nat, KeyPress::Down) == ShortEffect::Select(
            if selected == len - 1 {
                0
            } else {
                (selected + 1) as usize
            },
        ),
        short_effect(selected, len as nat, KeyPress::Up) matches ShortEffect::Select(i) && i < len
            && short_effect(i, len as nat, KeyPress::Down) == ShortEffect::Select(selected),
        short_effect(selected, len as nat, key) == ShortEffect::Quit <==> key == KeyPress::Esc
            || key == KeyPress::Char('q'),
        short_effect(selected, len as nat, key) is Open <==> key == KeyPress::Enter,
        short_effect(selected, len as nat, KeyPress::Enter) == ShortEffect::Open(selected),
        short_effect(selected, len as nat, key) is Select <==> key == KeyPress::Up || key
            == KeyPress::Down,
{
}

/// What is previewed: the pretty-printed form where there is one, else the text
/// itself, whose bytes are those read.
pub proof fn law_short_preview(bytes: Vec<u8>, pretty: Option<Seq<char>>)
    requires
        bytes@.len() <= crate::preview::PREVIEW_LIMIT,
        valid_utf8(bytes@),
    ensures
        pretty matches Some(text) ==> short_preview_of(Reading::Bytes(bytes), pretty) == text,
        pretty is None ==> vstd::utf8::encode_utf8(
            short_preview_of(Reading::Bytes(bytes), pretty),
        ) == bytes@,
{
    vstd::utf8::decode_utf8_encode_utf8(bytes@);
}

/// A line of the short list starts with the whole name and holds the whole time
/// and the whole size, in this order.
pub proof fn law_short_lines(name: Seq<char>, time: Seq<char>, size: Seq<char>)
    ensures
        ({
            let line = short_line_of(name, time, size);
            let n = name.len() as int;
            let m = n + 5 + time.len();
            &&& line.len() == m + 3 + size.len() + 1
            &&& line.take(n) == name
            &&& line.subrange(n + 5, m) == time
            &&& line.subrange(m + 3, m + 3 + size.len()) == size
        }),
{
    reveal_strlit("  \u{2014}  ");
    reveal_strlit("  (");
    reveal_strlit(")");
    let line = short_line_of(name, time, size);
    let n = name.len() as int;
    let m = n + 5 + time.len();
    assert(line.take(n) =~= name);
    assert(line.subrange(n + 5, m) =~= time);
    assert(line.subrange(m + 3, m + 3 + size.len()) =~= size);
}

/// Where a file cannot be read the preview ends with why; bytes that are no text
/// give an empty one.
pub proof fn law_short_preview_failures(why: String, bytes: Vec<u8>, pretty: Option<Seq<char>>)
    ensures
        crate::text::has_suffix(short_preview_of(Reading::Failed(why), pretty), why@),
        short_preview_of(Reading::Failed(why), pretty).len() > why@.len(),
        bytes@.len() <= crate::preview::PREVIEW_LIMIT && !valid_utf8(bytes@) ==> short_preview_of(
            Reading::Bytes(bytes),
            pretty,
        ).len() == 0,
{
    reveal_strlit("");
    reveal_strlit("failed to read preview: ");
    let text = short_preview_of(Reading::Failed(why), pretty);
    assert(text.skip(text.len() - why@.len()) =~= why@);
}

/// A file that could not be examined is listed at an unknown time and as empty;
/// no dump of the short list has tags.
pub proof fn law_unknown_files_in_the_short_list(d: DumpView, f: FileFacts)
    requires
        shown_in_short(d, f),
    ensures
        f.stat is None ==> d.time == "unknown"@ && d.size == short_size_text(0),
        f.stat is Some ==> d.size == short_size_text(f.stat->0.len as nat),
        d.tags.len() == 0,
        d.title == f.lossy_name@,
{
}

} // verus!
