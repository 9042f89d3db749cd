//! The lines of text beside the boxes: the list of dumps, the status line, and
//! the listing for an output that is no terminal.

use vstd::prelude::*;
use vstd::utf8::{decode_utf8, encode_utf8, is_char_boundary};
use crate::browser::{Browser, Viewer};
use crate::keys::{find_index, place_among};
use crate::listing::{DumpView, Entry, Listing};
use crate::render::less;
use crate::text::{chars_of, decimal, decimal_text, join2, views};
use crate::width::{display_width, fit_text, fitted, is_plain, text_width};

verus! {

/// `n` times the character `c`.
pub open spec fn repeated(c: char, n: int) -> Seq<char> {
    Seq::new(
        if n > 0 {
            n as nat
        } else {
            0
        },
        |i: int| c,
    )
}

/// Appends `c` to `s`, `n` times.
fn push_repeated(s: &mut String, c: char, n: usize)
    ensures
        final(s)@ == old(s)@ + repeated(c, n as int),
{
    let mut i: usize = 0;
    assert(s@ =~= old(s)@ + repeated(c, 0));
    while i < n
        invariant
            i <= n,
            s@ == old(s)@ + repeated(c, i as int),
        decreases n - i,
    {
        s.push(c);
        i = i + 1;
        assert(s@ =~= old(s)@ + repeated(c, i as int));
    }
}

// ---- the status line ----

/// A title cut to `room` columns, with dots where it was cut; nothing where
/// there is no room for them.
pub open spec fn cut_title(title: Seq<char>, room: int) -> Seq<char> {
    if display_width(title) <= room {
        title
    } else if room >= 4 {
        fitted(title, (room - 3) as nat) + "..."@
    } else {
        ""@
    }
}

/// The status line: the title on the left, the size on the right, and spaces
/// that do not break between them. Where the size takes the whole line there is
/// no title.
pub open spec fn status_of(title: Seq<char>, size: Seq<char>, width: nat) -> Seq<char> {
    if display_width(size) >= width {
        fitted(size, width)
    } else {
        let left = cut_title(title, less(width as int, display_width(size) as int + 1));
        left + repeated('\u{a0}', width - (display_width(left) + display_width(size))) + size
    }
}

fn shorten_title(title: &str, room: usize) -> (cut: String)
    ensures
        cut@ == cut_title(title@, room as int),
        is_plain(title@) ==> is_plain(cut@) && cut@.len() <= room,
{
    proof {
        reveal_strlit("...");
        reveal_strlit("");
    }
    if text_width(title) <= room {
        join2(title, "")
    } else if room >= 4 {
        let (text, _columns) = fit_text(title, room - 3);
        let cut = join2(&text, "...");
        assert(is_plain(title@) ==> is_plain(cut@)) by {
            if is_plain(title@) {
                assert forall|i: int| 0 <= i < cut@.len() implies ' ' <= #[trigger] cut@[i]
                    <= '~' by {
                    if i < text@.len() {
                        assert(cut@[i] == title@[i]);
                    }
                }
            }
        }
        cut
    } else {
        join2("", "")
    }
}

/// The status line. For printable ASCII it fills the line.
pub fn status_line(title: &str, size: &str, width: usize) -> (line: String)
    ensures
        line@ == status_of(title@, size@, width as nat),
        is_plain(title@) && is_plain(size@) ==> line@.len() == width,
{
    let size_width: usize = text_width(size);
    if size_width >= width {
        fit_text(size, width).0
    } else {
        let left = shorten_title(title, width - (size_width + 1));
        let left_width: usize = text_width(&left);
        let room: usize = width - size_width;
        let gap: usize = if room > left_width {
            room - left_width
        } else {
            0
        };
        let mut line = left;
        push_repeated(&mut line, '\u{a0}', gap);
        assert(repeated('\u{a0}', gap as int) =~= repeated(
            '\u{a0}',
            width - (left_width + size_width),
        ));
        join2(&line, size)
    }
}

// ---- the listing without a terminal ----

/// The longest title that is listed in full, in bytes.
pub const TITLE_BYTES: usize = 40;

/// How much is listed of a longer title, in bytes.
pub const CUT_TITLE_BYTES: usize = 37;

/// A title that is too long to be listed can be cut between two characters.
pub open spec fn can_be_cut(title: Seq<char>) -> bool {
    encode_utf8(title).len() > TITLE_BYTES ==> is_char_boundary(
        encode_utf8(title),
        CUT_TITLE_BYTES as int,
    )
}

/// The title as it is listed.
pub open spec fn listed_title(title: Seq<char>) -> Seq<char> {
    if encode_utf8(title).len() > TITLE_BYTES {
        decode_utf8(encode_utf8(title).take(CUT_TITLE_BYTES as int)) + "..."@
    } else {
        title
    }
}

/// `s` with spaces behind it, up to `n` characters.
pub open spec fn left_aligned(s: Seq<char>, n: int) -> Seq<char> {
    s + repeated(' ', n - s.len())
}

/// `s` with spaces before it, up to `n` characters.
pub open spec fn right_aligned(s: Seq<char>, n: int) -> Seq<char> {
    repeated(' ', n - s.len()) + s
}

/// The line of a dump in the listing. Where there is no title its column is
/// left out.
pub open spec fn listed(
    number: nat,
    time: Seq<char>,
    title: Seq<char>,
    size: Seq<char>,
) -> Seq<char> {
    let head = decimal(number) + ": "@ + left_aligned(time, 19);
    let middle = if title.len() == 0 {
        " "@
    } else {
        "  "@ + left_aligned(listed_title(title), 40) + " "@
    };
    head + middle + right_aligned(size, 8)
}

/// Whether a title that is too long can be cut between two characters.
pub fn title_can_be_cut(title: &str) -> (yes: bool)
    ensures
        yes == can_be_cut(title@),
{
    title.as_bytes().len() <= TITLE_BYTES || title.is_char_boundary(CUT_TITLE_BYTES)
}

fn shown_title(title: &str) -> (shown: String)
    requires
        can_be_cut(title@),
    ensures
        shown@ == listed_title(title@),
{
    proof {
        reveal_strlit("");
    }
    if title.as_bytes().len() > TITLE_BYTES {
        let (head, _rest) = title.split_at(CUT_TITLE_BYTES);
        proof {
            vstd::utf8::encode_utf8_decode_utf8(head@);
            assert(encode_utf8(head@) =~= encode_utf8(title@).take(CUT_TITLE_BYTES as int));
        }
        join2(head, "...")
    } else {
        join2(title, "")
    }
}

/// The line of a dump in the listing.
pub fn listing_line(number: usize, entry: &Entry) -> (line: String)
    requires
        can_be_cut(entry.title@),
    ensures
        line@ == listed(number as nat, entry.time@, entry.title@, entry.size@),
{
    let mut line = join2(&decimal_text(number as u64), ": ");
    push_aligned(&mut line, &entry.time, 19, false);
    if entry.title.as_str().is_empty() {
        line.push(' ');
    } else {
        line.push(' ');
        line.push(' ');
        push_aligned(&mut line, &shown_title(&entry.title), 40, false);
        line.push(' ');
    }
    push_aligned(&mut line, &entry.size, 8, true);
    proof {
        reveal_strlit(" ");
        reveal_strlit("  ");
        assert(line@ =~= listed(number as nat, entry.time@, entry.title@, entry.size@));
    }
    line
}

/// Appends `text` to `line`, with spaces before or behind it up to `n`
/// characters.
fn push_aligned(line: &mut String, text: &str, n: usize, right: bool)
    ensures
        final(line)@ == old(line)@ + if right {
            right_aligned(text@, n as int)
        } else {
            left_aligned(text@, n as int)
        },
{
    let len: usize = chars_of(text).len();
    let gap: usize = if len < n {
        n - len
    } else {
        0
    };
    assert(repeated(' ', gap as int) =~= repeated(' ', n - text@.len()));
    if right {
        push_repeated(line, ' ', gap);
        line.append(text);
    } else {
        line.append(text);
        push_repeated(line, ' ', gap);
    }
    assert(line@ =~= old(line)@ + if right {
        right_aligned(text@, n as int)
    } else {
        left_aligned(text@, n as int)
    });
}

/// The lines of the listing.
pub open spec fn is_report(lines: Seq<Seq<char>>, list: Seq<DumpView>) -> bool {
    if list.len() == 0 {
        lines == seq!["(no dumps found)"@]
    } else {
        &&& lines.len() == list.len()
        &&& forall|i: int|
            0 <= i < lines.len() ==> #[trigger] lines[i] == listed(
                (i + 1) as nat,
                list[i].time,
                list[i].title,
                list[i].size,
            )
    }
}

/// The list of dumps for an output that is no terminal.
pub fn report(list: &Listing) -> (lines: Vec<String>)
    requires
        list.wf(),
        forall|i: int| 0 <= i < list@.len() ==> can_be_cut((#[trigger] list@[i]).title),
    ensures
        is_report(views(lines@), list@),
{
    let mut lines: Vec<String> = Vec::new();
    if list.is_empty() {
        lines.push(join2("(no dumps found)", ""));
        proof {
            reveal_strlit("");
            assert(lines@[0]@ =~= "(no dumps found)"@);
            assert(views(lines@) =~= seq!["(no dumps found)"@]);
        }
        return lines;
    }
    let mut i: usize = 0;
    while i < list.len()
        invariant
            list.wf(),
            i <= list@.len(),
            forall|k: int| 0 <= k < list@.len() ==> can_be_cut((#[trigger] list@[k]).title),
            lines@.len() == i,
            forall|k: int|
                0 <= k < i ==> (#[trigger] lines@[k])@ == listed(
                    (k + 1) as nat,
                    list@[k].time,
                    list@[k].title,
                    list@[k].size,
                ),
        decreases list@.len() - i,
    {
        assert(can_be_cut(list@[i as int].title));
        proof {
            list.lemma_len();
        }
        lines.push(listing_line(i + 1, &list.entries[i]));
        i = i + 1;
    }
    lines
}

/// The preview below the listing; a note where it is empty.
pub fn report_preview(preview: String) -> (text: String)
    ensures
        text@ == if preview@.len() == 0 {
            "(no preview available)"@
        } else {
            preview@
        },
{
    if preview.as_str().is_empty() {
        "(no preview available)".to_string()
    } else {
        preview
    }
}

// ---- what the boxes show of the browser ----

/// The line of a dump in the dumps box: its time, set in where it is the
/// selected one.
pub open spec fn dump_line(d: DumpView, selected: bool) -> Seq<char> {
    if selected {
        "  "@ + d.time
    } else {
        d.time
    }
}

/// What stands in the tags box where there are no tags; `None` where there is
/// then no such box.
pub fn no_tags_note(viewer: Viewer) -> (note: Option<&'static str>)
    ensures
        match viewer {
            Viewer::Embedded => note is None,
            Viewer::Standalone => note matches Some(text) && text@ == "(no tags)"@,
        },
{
    match viewer {
        Viewer::Embedded => None,
        Viewer::Standalone => Some("(no tags)"),
    }
}

impl Browser {
    /// The lines of the dumps box, one for each visible dump.
    pub fn dump_lines(&self) -> (lines: Vec<String>)
        requires
            self.wf(),
        ensures
            lines@.len() == self.display().len(),
            forall|k: int|
                0 <= k < lines@.len() ==> (#[trigger] lines@[k])@ == dump_line(
                    self.listing@[self.display()[k] as int],
                    self.selected == Some(self.display()[k]),
                ),
    {
        let display = self.display_indices();
        proof {
            self.lemma_display_in_list(self.selected_tags@, self.match_all);
            reveal_strlit("");
        }
        let mut lines: Vec<String> = Vec::new();
        let mut k: usize = 0;
        while k < display.len()
            invariant
                self.wf(),
                display@ == self.display(),
                k <= display@.len(),
                ""@.len() == 0,
                forall|j: int| 0 <= j < display@.len() ==> #[trigger] display@[j]
                    < self.listing@.len(),
                lines@.len() == k,
                forall|j: int|
                    0 <= j < k ==> (#[trigger] lines@[j])@ == dump_line(
                        self.listing@[display@[j] as int],
                        self.selected == Some(display@[j]),
                    ),
            decreases display@.len() - k,
        {
            let i: usize = display[k];
            let before = if self.selected == Some(i) {
                "  "
            } else {
                ""
            };
            let line = join2(before, &self.listing.entries[i].time);
            assert(line@ =~= dump_line(self.listing@[i as int], self.selected == Some(i)));
            lines.push(line);
            k = k + 1;
        }
        lines
    }

    /// What stands in the dumps box where no dump is visible; `None` where one
    /// is. The embedded viewer leaves the box empty.
    pub fn dumps_note(&self) -> (note: Option<&'static str>)
        requires
            self.wf(),
        ensures
            note is None <==> self.display().len() > 0,
            note matches Some(text) ==> text@ == match self.viewer {
                Viewer::Embedded => ""@,
                Viewer::Standalone => if self.listing@.len() == 0 {
                    "(no dumps found)"@
                } else {
                    "(no dumps match selected tags)"@
                },
            },
    {
        if self.display_indices().len() > 0 {
            return None;
        }
        Some(
            match self.viewer {
                Viewer::Embedded => "",
                Viewer::Standalone => if self.listing.is_empty() {
                    "(no dumps found)"
                } else {
                    "(no dumps match selected tags)"
                },
            },
        )
    }

    /// The title and the size of the selected dump; nothing where none is
    /// selected.
    pub fn selected_texts(&self) -> (texts: (String, String))
        requires
            self.wf(),
        ensures
            match self.selected {
                Some(i) => texts.0@ == self.listing@[i as int].title && texts.1@
                    == self.listing@[i as int].size,
                None => texts.0@.len() == 0 && texts.1@.len() == 0,
            },
    {
        match self.selected {
            Some(i) => {
                let entry = &self.listing.entries[i];
                (entry.title.clone(), entry.size.clone())
            },
            None => (String::new(), String::new()),
        }
    }

    /// Where the selected dump stands among the visible ones.
    pub fn selected_line(&self) -> (place: Option<usize>)
        requires
            self.wf(),
        ensures
            place == place_among(self.selected, self.display()),
    {
        match self.selected {
            Some(s) => find_index(&self.display_indices(), s),
            None => None,
        }
    }
}

// ---- laws ----

/// Where the title and the size fit on the line with a column between them, the
/// line starts with the whole title, ends with the whole size, and holds nothing
/// but spaces that do not break between them.
pub proof fn law_status_line_shows_both(title: Seq<char>, size: Seq<char>, width: nat)
    requires
        display_width(title) + 1 + display_width(size) <= width,
    ensures
        ({
            let line = status_of(title, size, width);
            let gap = width - display_width(title) - display_width(size);
            &&& line.len() == title.len() + gap + size.len()
            &&& line.take(title.len() as int) == title
            &&& line.skip(line.len() - size.len()) == size
            &&& forall|i: int|
                title.len() <= i < title.len() + gap ==> #[trigger] line[i] == '\u{a0}'
        }),
{
    let line = status_of(title, size, width);
    let gap = width - display_width(title) - display_width(size);
    assert(line == title + repeated('\u{a0}', gap) + size);
    assert(line.take(title.len() as int) =~= title);
    assert(line.skip(line.len() - size.len()) =~= size);
}

/// A title that does not fit beside the size is cut and ends in three dots, where
/// four columns are left for it; the size is kept whole.
pub proof fn law_status_line_keeps_the_size(title: Seq<char>, size: Seq<char>, width: nat)
    requires
        display_width(size) < width,
        display_width(title) + 1 + display_width(size) > width,
    ensures
        ({
            let line = status_of(title, size, width);
            let room = width - display_width(size) - 1;
            &&& line.len() >= size.len()
            &&& line.skip(line.len() - size.len()) == size
            &&& room >= 4 ==> {
                let head = fitted(title, (room - 3) as nat);
                &&& crate::width::total(crate::width::char_widths(head)) + 3 <= room
                &&& head.len() <= title.len()
                &&& line.len() >= head.len() + 3
                &&& line.take(head.len() as int) == title.take(head.len() as int)
                &&& line.subrange(head.len() as int, head.len() as int + 3) == seq!['.', '.', '.']
            }
        }),
{
    reveal_strlit("...");
    reveal_strlit("");
    let line = status_of(title, size, width);
    let room = width - display_width(size) - 1;
    let left = cut_title(title, room);
    let gap = repeated('\u{a0}', width - (display_width(left) + display_width(size)));
    assert(line == left + gap + size);
    assert(line.skip(line.len() - size.len()) =~= size);
    if room >= 4 {
        let head = fitted(title, (room - 3) as nat);
        crate::width::law_fitted_is_a_beginning(title, (room - 3) as nat);
        assert(line.take(head.len() as int) =~= title.take(head.len() as int));
        assert(line.subrange(head.len() as int, head.len() as int + 3) =~= seq!['.', '.', '.']);
    }
}

/// A line with room for the size alone shows as much of it as fits.
pub proof fn law_narrow_status_line(title: Seq<char>, size: Seq<char>, width: nat)
    requires
        display_width(size) >= width,
    ensures
        status_of(title, size, width).len() <= size.len(),
        status_of(title, size, width) == size.take(status_of(title, size, width).len() as int),
        crate::width::total(crate::width::char_widths(status_of(title, size, width))) <= width,
{
    crate::width::law_fitted_is_a_beginning(size, width);
}

/// An aligned text is the text with spaces on one side, just enough to make the
/// column; a text that is longer stays as it is.
pub proof fn law_aligned(s: Seq<char>, n: int)
    ensures
        s.len() >= n ==> left_aligned(s, n) == s && right_aligned(s, n) == s,
        s.len() < n ==> {
            &&& left_aligned(s, n).len() == n
            &&& left_aligned(s, n).take(s.len() as int) == s
            &&& forall|i: int| s.len() <= i < n ==> #[trigger] left_aligned(s, n)[i] == ' '
            &&& right_aligned(s, n).len() == n
            &&& right_aligned(s, n).skip(n - s.len()) == s
            &&& forall|i: int| 0 <= i < n - s.len() ==> #[trigger] right_aligned(s, n)[i] == ' '
        },
{
    if s.len() >= n {
        assert(left_aligned(s, n) =~= s);
        assert(right_aligned(s, n) =~= s);
    } else {
        assert(left_aligned(s, n).take(s.len() as int) =~= s);
        assert(right_aligned(s, n).skip(n - s.len()) =~= s);
    }
}

/// A title of at most 40 bytes is listed in full; of a longer one the first 37
/// bytes, and three dots.
pub proof fn law_listed_titles(title: Seq<char>)
    ensures
        encode_utf8(title).len() <= 40 ==> listed_title(title) == title,
        encode_utf8(title).len() > 40 && is_char_boundary(encode_utf8(title), 37) ==> {
            let shown = listed_title(title);
            &&& shown.len() >= 3
            &&& shown.skip(shown.len() - 3) == seq!['.', '.', '.']
            &&& encode_utf8(shown.take(shown.len() - 3)) == encode_utf8(title).take(37)
        },
{
    reveal_strlit("...");
    let bytes = encode_utf8(title);
    if bytes.len() > 40 && is_char_boundary(bytes, 37) {
        let shown = listed_title(title);
        vstd::utf8::encode_utf8_valid_utf8(title);
        vstd::utf8::valid_utf8_split(bytes, 37);
        assert(bytes.take(37) =~= bytes.subrange(0, 37));
        vstd::utf8::decode_utf8_encode_utf8(bytes.take(37));
        assert(shown.skip(shown.len() - 3) =~= seq!['.', '.', '.']);
        assert(shown.take(shown.len() - 3) =~= decode_utf8(bytes.take(37)));
    }
}

/// A line of the listing: the number, a colon, the time, the title where there is
/// one, and the size, each in its column.
pub proof fn law_listed_lines(number: nat, time: Seq<char>, title: Seq<char>, size: Seq<char>)
    requires
        time.len() == 19,
        size.len() <= 8,
    ensures
        ({
            let line = listed(number, time, title, size);
            let n = decimal(number).len() as int;
            &&& line.take(n) == decimal(number)
            &&& line[n] == ':' && line[n + 1] == ' '
            &&& line.subrange(n + 2, n + 21) == time
            &&& line.skip(line.len() - size.len()) == size
            &&& title.len() == 0 ==> line.len() == n + 30
            &&& 0 < title.len() && listed_title(title).len() <= 40 ==> line.len() == n + 72
                && line.subrange(n + 23, n + 23 + listed_title(title).len()) == listed_title(title)
        }),
{
    reveal_strlit(": ");
    reveal_strlit(" ");
    reveal_strlit("  ");
    let line = listed(number, time, title, size);
    let n = decimal(number).len() as int;
    law_aligned(time, 19);
    law_aligned(size, 8);
    law_aligned(listed_title(title), 40);
    assert(line.take(n) =~= decimal(number));
    assert(line.subrange(n + 2, n + 21) =~= time);
    assert(line.skip(line.len() - size.len()) =~= size);
    if 0 < title.len() && listed_title(title).len() <= 40 {
        let shown = listed_title(title);
        assert(line.subrange(n + 23, n + 23 + shown.len()) =~= shown) by {
            let column = left_aligned(shown, 40);
            assert(line.subrange(n + 23, n + 63) =~= column);
            assert(line.subrange(n + 23, n + 23 + shown.len()) =~= column.take(
                shown.len() as int,
            ));
        }
    }
}

/// The report has a line for each dump, in the order of the list and counted from
/// one; a single note where there are no dumps.
pub proof fn law_report_lists_the_dumps(lines: Seq<Seq<char>>, list: Seq<DumpView>, i: int)
    requires
        is_report(lines, list),
    ensures
        list.len() == 0 ==> lines.len() == 1,
        list.len() > 0 ==> lines.len() == list.len(),
        0 <= i < list.len() ==> {
            let n = decimal((i + 1) as nat).len() as int;
            &&& lines[i].take(n) == decimal((i + 1) as nat)
            &&& lines[i] == listed((i + 1) as nat, list[i].time, list[i].title, list[i].size)
        },
{
    if 0 <= i < list.len() {
        assert(lines[i] == listed((i + 1) as nat, list[i].time, list[i].title, list[i].size));
        let n = decimal((i + 1) as nat).len() as int;
        assert(lines[i].take(n) =~= decimal((i + 1) as nat));
    }
}

/// The line of a dump shows its whole time; that of the selected one is set in by
/// two columns.
pub proof fn law_lines_of_the_dumps(d: DumpView)
    ensures
        dump_line(d, false) == d.time,
        dump_line(d, true).len() == d.time.len() + 2,
        dump_line(d, true)[0] == ' ' && dump_line(d, true)[1] == ' ',
        dump_line(d, true).skip(2) == d.time,
{
    reveal_strlit("  ");
    assert(dump_line(d, true).skip(2) =~= d.time);
}

/// The title and the size beside the boxes are those of the selected dump.
pub proof fn law_texts_of_the_selected_dump(b: &Browser, texts: (String, String))
    requires
        call_ensures(Browser::selected_texts, (b,), texts),
    ensures
        b.selected matches Some(i) ==> texts.0@ == b.listing@[i as int].title && texts.1@
            == b.listing@[i as int].size,
        b.selected is None ==> texts.0@.len() == 0 && texts.1@.len() == 0,
{
}

/// The lines of the dumps box: one for each visible dump, in order, with its
/// whole time; the selected one's is set in by two columns.
pub proof fn law_lines_in_the_dumps_box(b: &Browser, lines: Vec<String>, k: int)
    requires
        call_ensures(Browser::dump_lines, (b,), lines),
    ensures
        lines@.len() == b.display().len(),
        0 <= k < lines@.len() ==> {
            let i = b.display()[k];
            let time = b.listing@[i as int].time;
            &&& b.selected == Some(i) ==> lines@[k]@ == seq![' ', ' '] + time
            &&& b.selected != Some(i) ==> lines@[k]@ == time
        },
{
    reveal_strlit("  ");
    if 0 <= k < lines@.len() {
        assert(lines@[k]@ == dump_line(
            b.listing@[b.display()[k] as int],
            b.selected == Some(b.display()[k]),
        ));
        assert("  "@ =~= seq![' ', ' ']);
    }
}

/// The line of the selected dump is the one that shows it; there is none exactly
/// where no visible dump is selected.
pub proof fn law_line_of_the_selected_dump(b: &Browser, place: Option<usize>)
    requires
        call_ensures(Browser::selected_line, (b,), place),
    ensures
        place matches Some(p) ==> p < b.display().len() && b.selected == Some(
            b.display()[p as int],
        ),
        place is None <==> b.selected is None || !b.display().contains(b.selected->0),
{
    b.listing.lemma_len();
    crate::keys::lemma_display_len(b);
    if let Some(s) = b.selected {
        crate::keys::law_index_in(b.display(), s);
        if let Some(p) = place {
            assert(b.display().contains(b.display()[p as int]));
        }
    }
}

/// A note stands in the dumps box exactly where no dump is visible.
pub proof fn law_notes_in_the_dumps_box(b: &Browser, note: Option<&'static str>)
    requires
        call_ensures(Browser::dumps_note, (b,), note),
    ensures
        note is Some <==> b.display().len() == 0,
        note is Some && b.viewer == Viewer::Embedded ==> note->0@.len() == 0,
        note is Some && b.viewer == Viewer::Standalone ==> note->0@.len() > 0,
        note is Some && b.viewer == Viewer::Standalone && b.listing@.len() == 0 ==> note->0@
            == "(no dumps found)"@,
{
    reveal_strlit("");
    reveal_strlit("(no dumps found)");
    reveal_strlit("(no dumps match selected tags)");
}

/// The report shows the preview as it is where there is one.
pub proof fn law_preview_in_the_report(preview: String, text: String)
    requires
        call_ensures(report_preview, (preview,), text),
    ensures
        preview@.len() > 0 ==> text@ == preview@,
        text@.len() > 0,
{
    reveal_strlit("(no preview available)");
}

/// The status line that is drawn for printable ASCII fills the line, starts with
/// the title and ends with the size where both fit.
pub proof fn law_drawn_status_line(title: &str, size: &str, width: usize, line: String)
    requires
        call_ensures(status_line, (title, size, width), line),
        is_plain(title@),
        is_plain(size@),
        display_width(title@) == title@.len(),
        display_width(size@) == size@.len(),
        title@.len() + 1 + size@.len() <= width,
    ensures
        line@.len() == width,
        line@.take(title@.len() as int) == title@,
        line@.skip(line@.len() - size@.len()) == size@,
{
    law_status_line_shows_both(title@, size@, width as nat);
}

/// Without dumps the report is one line that says so.
pub proof fn law_report_without_dumps(list: &Listing, lines: Vec<String>)
    requires
        call_ensures(report, (list,), lines),
        list@.len() == 0,
    ensures
        lines@.len() == 1,
        lines@[0]@ == "(no dumps found)"@,
{
    let all = views(lines@);
    assert(all.len() == lines@.len());
    assert(all[0] == lines@[0]@);
}

} // verus!
