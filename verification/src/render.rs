//! What is drawn: the texts and their places on the screen.

use vstd::prelude::*;
use crate::browser::Viewer;
use crate::tags::TagSet;
use crate::text::{chars_of, decimal, decimal_text, join2, lemma_decimal_digits, views};
use crate::width::{
    char_widths, fit_text, fit_widths, fitted, is_plain, text_width, total, widths_of,
};

verus! {

/// A rectangle on the screen.
#[derive(Debug, Clone, Copy, PartialEq, Eq, Structural)]
pub struct Area {
    pub x: u16,
    pub y: u16,
    pub width: u16,
    pub height: u16,
}

impl Area {
    /// The rectangle ends within the coordinates that there are.
    pub open spec fn on_screen(self) -> bool {
        self.x + self.width <= u16::MAX && self.y + self.height <= u16::MAX
    }

    /// Whether the rectangle ends within the coordinates that there are.
    pub fn fits(self) -> (yes: bool)
        ensures
            yes == self.on_screen(),
    {
        self.width <= u16::MAX - self.x && self.height <= u16::MAX - self.y
    }
}

/// `a - b`, or zero.
pub open spec fn less(a: int, b: int) -> int {
    if a >= b {
        a - b
    } else {
        0
    }
}

// ---- the tags ----

/// A line of the tags box.
#[derive(Debug)]
pub struct TagRow {
    pub y: u16,
    /// Written from the left edge.
    pub text: String,
    pub count: String,
    /// Where the count is written.
    pub count_x: u16,
    pub highlighted: bool,
}

/// The columns left for a tag beside its count and its mark. The embedded
/// viewer keeps one free between the two.
pub open spec fn tag_room(viewer: Viewer, width: int, count_len: int, mark_len: int) -> int {
    let beside = match viewer {
        Viewer::Embedded => less(width, count_len + 1),
        Viewer::Standalone => less(width, count_len),
    };
    less(beside, mark_len)
}

/// The characters of the tag fit into `room` columns.
pub open spec fn tag_fits(tag: Seq<char>, room: nat) -> bool {
    total(char_widths(tag)) <= room
}

/// A tag in `room` columns: all of it where it fits, else its beginning and
/// three dots. Where there is no room for a character and the dots, the dots are
/// left out.
pub open spec fn cut_tag(tag: Seq<char>, room: nat) -> Seq<char> {
    if tag_fits(tag, room) {
        tag
    } else if room >= 4 {
        fitted(tag, (room - 3) as nat) + "..."@
    } else {
        fitted(tag, room)
    }
}

/// The mark of a picked tag.
pub open spec fn mark_of(picked: bool) -> Seq<char> {
    if picked {
        "> "@
    } else {
        ""@
    }
}

/// `row` is the line for the tag at position `i`.
pub open spec fn is_tag_row(
    row: TagRow,
    viewer: Viewer,
    area: Area,
    i: int,
    tag: Seq<char>,
    count: nat,
    picked: bool,
    focused: bool,
    cursor: Option<usize>,
) -> bool {
    let digits = decimal(count).len() as int;
    let gap = match viewer {
        Viewer::Embedded => 1int,
        Viewer::Standalone => 0,
    };
    &&& row.y == area.y + i
    &&& row.text@ == mark_of(picked) + cut_tag(
        tag,
        tag_room(viewer, area.width as int, digits, mark_of(picked).len() as int) as nat,
    )
    &&& row.count@ == decimal(count)
    &&& row.count_x == area.x + less(area.width as int, digits + gap) + gap
    &&& row.highlighted == (focused && cursor == Some(i as usize))
}

proof fn lemma_decimal_len(n: nat, k: nat)
    requires
        n < vstd::arithmetic::power::pow(10, k),
        k > 0,
    ensures
        decimal(n).len() <= k,
    decreases k,
{
    if n >= 10 {
        vstd::arithmetic::power::lemma_pow1(10);
        if k > 1 {
            let p = vstd::arithmetic::power::pow(10, (k - 1) as nat);
            assert(vstd::arithmetic::power::pow(10, k) == 10 * p) by {
                reveal(vstd::arithmetic::power::pow);
            }
            assert(n / 10 < p) by (nonlinear_arith)
                requires
                    n < 10 * p,
            ;
            lemma_decimal_len(n / 10, (k - 1) as nat);
        }
    }
}

/// A number that fits a machine word has few digits.
pub proof fn lemma_decimal_of_usize(n: usize)
    ensures
        decimal(n as nat).len() <= 20,
{
    assert(vstd::arithmetic::power::pow(10, 20) > usize::MAX) by {
        reveal(vstd::arithmetic::power::pow);
        reveal_with_fuel(vstd::arithmetic::power::pow, 21);
    }
    lemma_decimal_len(n as nat, 20);
}

/// The count of a tag takes as many columns as it has digits, few of them.
fn count_columns(count: &String, n: usize) -> (w: usize)
    requires
        count@ == decimal(n as nat),
    ensures
        w == decimal(n as nat).len(),
        w <= 20,
{
    proof {
        lemma_decimal_digits(n as nat);
        assert(is_plain(count@));
        lemma_decimal_of_usize(n);
    }
    text_width(count)
}

/// A tag in `room` columns. Printable ASCII takes one column for each character.
pub fn shorten_tag(tag: &str, room: usize) -> (cut: String)
    ensures
        cut@ == cut_tag(tag@, room as nat),
        is_plain(tag@) ==> cut@.len() <= room,
{
    let (text, _columns) = fit_text(tag, room);
    proof {
        lemma_fits_if_uncut(tag@, room as nat);
        reveal_strlit("...");
    }
    if chars_of(&text).len() == chars_of(tag).len() {
        assert(text@ =~= tag@);
        return text;
    }
    if room >= 4 {
        let (head, _columns) = fit_text(tag, room - 3);
        join2(&head, "...")
    } else {
        text
    }
}

/// A tag fits exactly where nothing of it is cut off.
proof fn lemma_fits_if_uncut(tag: Seq<char>, room: nat)
    ensures
        fitted(tag, room).len() <= tag.len(),
        fitted(tag, room) == tag.take(fitted(tag, room).len() as int),
        tag_fits(tag, room) <==> fitted(tag, room).len() == tag.len(),
{
    let widths = char_widths(tag);
    crate::width::law_fit_is_longest(widths, room);
    assert(widths.take(widths.len() as int) =~= widths);
}

/// The lines of the tags box: as many tags as the area has lines.
pub fn tag_lines(
    viewer: Viewer,
    area: Area,
    tags: &Vec<String>,
    counts: &Vec<usize>,
    selected_tags: &TagSet,
    focused: bool,
    cursor: Option<usize>,
) -> (rows: Vec<TagRow>)
    requires
        area.on_screen(),
        viewer == Viewer::Embedded ==> area.x < u16::MAX,
    ensures
        rows@.len() == if tags@.len() <= area.height {
            tags@.len() as int
        } else {
            area.height as int
        },
        forall|i: int|
            0 <= i < rows@.len() ==> is_tag_row(
                #[trigger] rows@[i],
                viewer,
                area,
                i,
                tags@[i]@,
                if i < counts@.len() {
                    counts@[i] as nat
                } else {
                    0
                },
                selected_tags@.contains(tags@[i]@),
                focused,
                cursor,
            ),
{
    let mut rows: Vec<TagRow> = Vec::new();
    let mut i: usize = 0;
    proof {
        reveal_strlit("> ");
        reveal_strlit("");
    }
    while i < tags.len() && i < area.height as usize
        invariant
            area.on_screen(),
            viewer == Viewer::Embedded ==> area.x < u16::MAX,
            i <= tags@.len(),
            i <= area.height,
            "> "@.len() == 2,
            ""@.len() == 0,
            rows@.len() == i,
            forall|k: int|
                0 <= k < rows@.len() ==> is_tag_row(
                    #[trigger] rows@[k],
                    viewer,
                    area,
                    k,
                    tags@[k]@,
                    if k < counts@.len() {
                        counts@[k] as nat
                    } else {
                        0
                    },
                    selected_tags@.contains(tags@[k]@),
                    focused,
                    cursor,
                ),
        decreases tags@.len() - i,
    {
        let n: usize = if i < counts.len() {
            counts[i]
        } else {
            0
        };
        let count = decimal_text(n as u64);
        let columns: usize = count_columns(&count, n);
        let picked = selected_tags.contains(&tags[i]);
        let mark = if picked {
            "> "
        } else {
            ""
        };
        let mark_len: usize = if picked {
            2
        } else {
            0
        };
        let width: usize = area.width as usize;
        let gap: usize = match viewer {
            Viewer::Embedded => 1,
            Viewer::Standalone => 0,
        };
        let beside: usize = width.saturating_sub(columns + gap);
        let room: usize = beside.saturating_sub(mark_len);
        let text = join2(mark, &shorten_tag(&tags[i], room));
        let count_x: u16 = area.x + (beside as u16) + (gap as u16);
        let highlighted = match cursor {
            Some(c) => focused && c == i,
            None => false,
        };
        rows.push(TagRow { y: area.y + i as u16, text, count, count_x, highlighted });
        i = i + 1;
    }
    rows
}

// ---- the preview ----

/// How many characters come before the first line feed.
pub open spec fn line_len(s: Seq<char>) -> nat
    decreases s.len(),
{
    if s.len() == 0 || s[0] == '\n' {
        0
    } else {
        1 + line_len(s.skip(1))
    }
}

/// A line without the carriage return before its line feed.
pub open spec fn without_return(line: Seq<char>) -> Seq<char> {
    if line.len() > 0 && line.last() == '\r' {
        line.drop_last()
    } else {
        line
    }
}

/// The lines of a text. The last one need not end in a line feed.
pub open spec fn text_lines(s: Seq<char>) -> Seq<Seq<char>>
    decreases s.len(),
{
    if s.len() == 0 {
        seq![]
    } else {
        let n = line_len(s) as int;
        if n >= s.len() {
            seq![s]
        } else {
            seq![without_return(s.take(n))] + text_lines(s.skip(n + 1))
        }
    }
}

/// `s` with four spaces for each tab.
pub open spec fn untabbed(s: Seq<char>) -> Seq<char>
    decreases s.len(),
{
    if s.len() == 0 {
        seq![]
    } else if s.last() == '\t' {
        untabbed(s.drop_last()) + seq![' ', ' ', ' ', ' ']
    } else {
        untabbed(s.drop_last()).push(s.last())
    }
}

/// `s` with spaces that do not break.
pub open spec fn unbroken(s: Seq<char>) -> Seq<char> {
    s.map_values(
        |c: char|
            if c == ' ' {
                '\u{a0}'
            } else {
                c
            },
    )
}

/// A line of the preview: tabs spread out, cut to the width, spaces that do not
/// break.
pub open spec fn preview_line(line: Seq<char>, width: nat) -> Seq<char> {
    unbroken(fitted(untabbed(line), width))
}

/// The lines of the preview in an area of the given size.
pub open spec fn preview_of(text: Seq<char>, height: nat, width: nat) -> Seq<Seq<char>> {
    let lines = text_lines(text);
    let shown = if lines.len() <= height {
        lines
    } else {
        lines.take(height as int)
    };
    shown.map_values(|line: Seq<char>| preview_line(line, width))
}

fn spread_tabs(chars: &Vec<char>, from: usize, to: usize) -> (out: Vec<char>)
    requires
        from <= to <= chars@.len(),
    ensures
        out@ == untabbed(chars@.subrange(from as int, to as int)),
{
    let ghost line = chars@.subrange(from as int, to as int);
    let mut out: Vec<char> = Vec::new();
    let mut i: usize = from;
    assert(line.take(0) =~= seq![]);
    while i < to
        invariant
            from <= i <= to <= chars@.len(),
            line == chars@.subrange(from as int, to as int),
            out@ == untabbed(line.take(i - from)),
        decreases to - i,
    {
        let c = chars[i];
        let ghost before = out@;
        assert(line.take(i - from + 1).drop_last() =~= line.take(i - from));
        assert(line.take(i - from + 1).last() == c);
        if c == '\t' {
            out.push(' ');
            out.push(' ');
            out.push(' ');
            out.push(' ');
            assert(out@ =~= before + seq![' ', ' ', ' ', ' ']);
        } else {
            out.push(c);
        }
        i = i + 1;
    }
    assert(line.take(to - from) =~= line);
    out
}

/// One line of the preview, from `chars[from..to]`.
fn show_line(chars: &Vec<char>, from: usize, to: usize, width: usize) -> (s: String)
    requires
        from <= to <= chars@.len(),
    ensures
        s@ == preview_line(chars@.subrange(from as int, to as int), width as nat),
{
    let spread = spread_tabs(chars, from, to);
    let fit = fit_widths(&widths_of(&spread), width);
    let ghost cut = fitted(spread@, width as nat);
    let mut s = String::new();
    let mut i: usize = 0;
    while i < fit.0
        invariant
            i <= fit.0 <= spread@.len(),
            cut == spread@.take(fit.0 as int),
            s@ == unbroken(cut.take(i as int)),
        decreases fit.0 - i,
    {
        let c = spread[i];
        assert(unbroken(cut.take(i + 1)) =~= unbroken(cut.take(i as int)).push(
            if c == ' ' {
                '\u{a0}'
            } else {
                c
            },
        ));
        if c == ' ' {
            s.push('\u{a0}');
        } else {
            s.push(c);
        }
        i = i + 1;
    }
    assert(cut.take(fit.0 as int) =~= cut);
    s
}

proof fn lemma_line_len(s: Seq<char>, n: int)
    requires
        0 <= n <= s.len(),
        forall|i: int| 0 <= i < n ==> #[trigger] s[i] != '\n',
        n < s.len() ==> s[n] == '\n',
    ensures
        line_len(s) == n,
    decreases n,
{
    if n > 0 {
        assert(s[0] != '\n');
        let rest = s.skip(1);
        assert forall|i: int| 0 <= i < n - 1 implies #[trigger] rest[i] != '\n' by {
            assert(rest[i] == s[i + 1]);
        }
        lemma_line_len(rest, n - 1);
    }
}

/// The lines of the preview, as many as the area has. Nothing is wrapped.
pub fn preview_lines(text: &str, height: usize, width: usize) -> (lines: Vec<String>)
    ensures
        views(lines@) == preview_of(text@, height as nat, width as nat),
{
    let chars = chars_of(text);
    let ghost all = text_lines(text@);
    let ghost show = |line: Seq<char>| preview_line(line, width as nat);
    let mut lines: Vec<String> = Vec::new();
    let mut at: usize = 0;
    proof {
        assert(text@.skip(0) =~= text@);
        assert(all =~= all.take(0) + text_lines(text@.skip(0)));
        assert(views(lines@) =~= all.take(0).map_values(show));
    }
    while lines.len() < height && at < chars.len()
        invariant
            chars@ == text@,
            at <= chars@.len(),
            show == (|line: Seq<char>| preview_line(line, width as nat)),
            all == text_lines(text@),
            lines@.len() <= height,
            lines@.len() <= all.len(),
            all == all.take(lines@.len() as int) + text_lines(text@.skip(at as int)),
            views(lines@) == all.take(lines@.len() as int).map_values(show),
        decreases chars@.len() - at,
    {
        let ghost rest = text@.skip(at as int);
        let ghost k = lines@.len() as int;
        let ghost before = views(lines@);
        let mut end: usize = at;
        while end < chars.len() && chars[end] != '\n'
            invariant
                chars@ == text@,
                at <= end <= chars@.len(),
                rest == text@.skip(at as int),
                forall|i: int| 0 <= i < end - at ==> #[trigger] rest[i] != '\n',
            decreases chars@.len() - end,
        {
            assert(rest[end - at] == chars@[end as int]);
            end = end + 1;
        }
        proof {
            if end < chars@.len() {
                assert(rest[end - at] == chars@[end as int]);
            }
            lemma_line_len(rest, end - at);
        }
        let stop: usize = if end < chars.len() && end > at && chars[end - 1] == '\r' {
            end - 1
        } else {
            end
        };
        let ghost line = text@.subrange(at as int, stop as int);
        proof {
            if end < chars@.len() {
                assert(rest.take(end - at) =~= text@.subrange(at as int, end as int));
                assert(line =~= without_return(rest.take(end - at)));
                assert(rest.skip(end - at + 1) =~= text@.skip(end + 1));
                assert(text_lines(rest) == seq![line] + text_lines(text@.skip(end + 1)));
            } else {
                assert(line =~= rest);
                assert(text_lines(text@.skip(end as int)) =~= seq![]);
                assert(text_lines(rest) =~= seq![line] + text_lines(text@.skip(end as int)));
            }
        }
        lines.push(show_line(&chars, at, stop, width));
        at = if end < chars.len() {
            end + 1
        } else {
            end
        };
        proof {
            assert(all[k] == text_lines(rest)[0]);
            assert(all.take(k + 1) =~= all.take(k).push(line));
            assert(all =~= all.take(k + 1) + text_lines(text@.skip(at as int)));
            assert(views(lines@) =~= before.push(preview_line(line, width as nat)));
            assert(all.take(k + 1).map_values(show) =~= all.take(k).map_values(show).push(
                preview_line(line, width as nat),
            ));
        }
    }
    proof {
        let n = lines@.len() as int;
        if at == chars@.len() {
            assert(text@.skip(at as int) =~= seq![]);
            assert(all =~= all.take(n));
        }
        assert(preview_of(text@, height as nat, width as nat) =~= all.take(n).map_values(show));
    }
    lines
}

// ---- laws ----

/// A tag is shown in full exactly where it fits. Where it is cut and there are
/// four columns or more, it ends in three dots, and what comes before them is a
/// beginning of the tag that leaves three columns free.
pub proof fn law_cut_tags_end_in_dots(tag: Seq<char>, room: nat)
    ensures
        tag_fits(tag, room) ==> cut_tag(tag, room) == tag,
        !tag_fits(tag, room) && room >= 4 ==> {
            let head = fitted(tag, (room - 3) as nat);
            &&& cut_tag(tag, room) == head + "..."@
            &&& head.len() < tag.len()
            &&& head == tag.take(head.len() as int)
            &&& total(char_widths(head)) + 3 <= room
        },
        room < 4 ==> total(char_widths(cut_tag(tag, room))) <= room,
{
    let widths = char_widths(tag);
    lemma_fits_if_uncut(tag, room);
    let narrow = if room >= 4 {
        (room - 3) as nat
    } else {
        room
    };
    lemma_fits_if_uncut(tag, narrow);
    crate::width::law_fit_is_longest(widths, narrow);
    assert(char_widths(fitted(tag, narrow)) =~= widths.take(fitted(tag, narrow).len() as int));
}

/// The preview never wraps: it has one line for each line of the text, up to the
/// height of the box, and each is cut to the width.
pub proof fn law_preview_fits(text: Seq<char>, height: nat, width: nat)
    ensures
        preview_of(text, height, width).len() <= height,
        preview_of(text, height, width).len() <= text_lines(text).len(),
        text_lines(text).len() <= height ==> preview_of(text, height, width).len() == text_lines(
            text,
        ).len(),
        forall|i: int|
            0 <= i < preview_of(text, height, width).len() ==> {
                let line = untabbed(text_lines(text)[i]);
                &&& #[trigger] preview_of(text, height, width)[i] == unbroken(fitted(line, width))
                &&& total(char_widths(fitted(line, width))) <= width
            },
{
    let lines = text_lines(text);
    assert forall|i: int| 0 <= i < preview_of(text, height, width).len() implies {
        let line = untabbed(text_lines(text)[i]);
        &&& #[trigger] preview_of(text, height, width)[i] == unbroken(fitted(line, width))
        &&& total(char_widths(fitted(line, width))) <= width
    } by {
        let line = untabbed(lines[i]);
        let widths = char_widths(line);
        crate::width::law_fit_is_longest(widths, width);
        assert(char_widths(fitted(line, width)) =~= widths.take(
            crate::width::fit_count(widths, width) as int,
        ));
    }
}

/// A text is read line by line: what stands before a line feed is a line, without
/// the carriage return at its end, and the rest is read in the same way. What
/// stands behind the last line feed is a line where it is not empty.
pub proof fn law_lines_of_a_text(line: Seq<char>, rest: Seq<char>)
    requires
        !line.contains('\n'),
    ensures
        line.len() == 0 || line.last() != '\r' ==> text_lines(line + seq!['\n'] + rest) == seq![line]
            + text_lines(rest),
        text_lines(line + seq!['\r', '\n'] + rest) == seq![line] + text_lines(rest),
        line.len() > 0 ==> text_lines(line) == seq![line],
        text_lines(seq![]).len() == 0,
{
    lemma_first_line(line, rest);
    let returned = line.push('\r');
    if returned.contains('\n') {
        let k = choose|k: int| 0 <= k < returned.len() && returned[k] == '\n';
        assert(line[k] == '\n');
    }
    lemma_first_line(returned, rest);
    assert(returned + seq!['\n'] + rest =~= line + seq!['\r', '\n'] + rest);
    assert(without_return(returned) =~= line);
    if line.len() > 0 {
        assert forall|i: int| 0 <= i < line.len() implies #[trigger] line[i] != '\n' by {
            assert(line.contains(line[i]));
        }
        lemma_line_len(line, line.len() as int);
    }
}

proof fn lemma_first_line(line: Seq<char>, rest: Seq<char>)
    requires
        !line.contains('\n'),
    ensures
        text_lines(line + seq!['\n'] + rest) == seq![without_return(line)] + text_lines(rest),
{
    let s = line + seq!['\n'] + rest;
    assert forall|i: int| 0 <= i < line.len() implies #[trigger] s[i] != '\n' by {
        assert(line.contains(line[i]));
        assert(s[i] == line[i]);
    }
    lemma_line_len(s, line.len() as int);
    assert(s.take(line.len() as int) =~= line);
    assert(s.skip(line.len() as int + 1) =~= rest);
}

/// Tabs become four spaces each, and nothing else changes.
pub proof fn law_tabs(a: Seq<char>, b: Seq<char>, c: char)
    ensures
        untabbed(a + b) == untabbed(a) + untabbed(b),
        c != '\t' ==> untabbed(seq![c]) == seq![c],
        untabbed(seq!['\t']) == seq![' ', ' ', ' ', ' '],
        untabbed(seq![]).len() == 0,
    decreases b.len(),
{
    reveal_with_fuel(untabbed, 2);
    let one: Seq<char> = seq![c];
    let tab: Seq<char> = seq!['\t'];
    assert(one.drop_last() =~= seq![]);
    assert(tab.drop_last() =~= seq![]);
    assert(untabbed(tab) =~= seq![' ', ' ', ' ', ' ']);
    if c != '\t' {
        assert(untabbed(one) =~= seq![c]);
    }
    if b.len() == 0 {
        assert(a + b =~= a);
        assert(untabbed(a) + untabbed(b) =~= untabbed(a));
    } else {
        law_tabs(a, b.drop_last(), c);
        assert((a + b).drop_last() =~= a + b.drop_last());
        assert(untabbed(a + b) =~= untabbed(a) + untabbed(b));
    }
}

/// A line of the preview keeps its characters, but that spaces do not break.
pub proof fn law_spaces_do_not_break(s: Seq<char>)
    ensures
        unbroken(s).len() == s.len(),
        forall|i: int|
            0 <= i < s.len() && s[i] != ' ' ==> #[trigger] unbroken(s)[i] == s[i],
        forall|i: int|
            0 <= i < s.len() && s[i] == ' ' ==> #[trigger] unbroken(s)[i] == '\u{a0}',
{
}

/// A line that fits and has no tabs is previewed in full.
pub proof fn law_lines_that_fit_are_shown(text: Seq<char>, height: nat, width: nat, i: int)
    requires
        0 <= i < text_lines(text).len(),
        i < height,
        !text_lines(text)[i].contains('\t'),
        total(char_widths(text_lines(text)[i])) <= width,
    ensures
        i < preview_of(text, height, width).len(),
        preview_of(text, height, width)[i] == unbroken(text_lines(text)[i]),
{
    let line = text_lines(text)[i];
    law_preview_fits(text, height, width);
    lemma_no_tabs(line);
    crate::width::law_fitted_is_a_beginning(line, width);
}

proof fn lemma_no_tabs(s: Seq<char>)
    requires
        !s.contains('\t'),
    ensures
        untabbed(s) == s,
    decreases s.len(),
{
    if s.len() > 0 {
        let shorter = s.drop_last();
        assert(s[s.len() - 1] == s.last());
        if shorter.contains('\t') {
            let k = choose|k: int| 0 <= k < shorter.len() && shorter[k] == '\t';
            assert(s[k] == '\t');
        }
        lemma_no_tabs(shorter);
        assert(untabbed(s) =~= s);
    } else {
        assert(untabbed(s) =~= s);
    }
}

/// The line of a tag: the lines go down from the top of the box, a picked tag is
/// marked, a tag that fits beside its count is written in full, and the count
/// ends at the right edge, in the embedded viewer with a column free before it.
pub proof fn law_line_of_a_tag(
    row: TagRow,
    viewer: Viewer,
    area: Area,
    i: int,
    tag: Seq<char>,
    count: nat,
    picked: bool,
    focused: bool,
    cursor: Option<usize>,
)
    requires
        area.on_screen(),
        0 <= i <= usize::MAX,
        is_tag_row(row, viewer, area, i, tag, count, picked, focused, cursor),
    ensures
        row.y == area.y + i,
        row.count@ == decimal(count),
        row.highlighted <==> focused && cursor == Some(i as usize),
        ({
            let gap: int = if viewer == Viewer::Embedded {
                1
            } else {
                0
            };
            let mark: int = if picked {
                2
            } else {
                0
            };
            let room = area.width - decimal(count).len() - gap - mark;
            &&& decimal(count).len() + gap <= area.width ==> row.count_x + decimal(count).len()
                == area.x + area.width
            &&& picked ==> row.text@.len() >= 2 && row.text@[0] == '>' && row.text@[1] == ' '
            &&& room >= 0 && total(char_widths(tag)) <= room ==> row.text@.len() == tag.len() + mark
                && row.text@.skip(mark) == tag
            &&& room >= 4 && total(char_widths(tag)) > room ==> row.text@.len() >= mark + 3
                && row.text@.skip(row.text@.len() - 3) == seq!['.', '.', '.']
        }),
{
    reveal_strlit("> ");
    reveal_strlit("");
    reveal_strlit("...");
    let digits = decimal(count).len() as int;
    let gap: int = if viewer == Viewer::Embedded {
        1
    } else {
        0
    };
    let mark: int = if picked {
        2
    } else {
        0
    };
    let room = area.width - digits - gap - mark;
    let cut = cut_tag(tag, tag_room(viewer, area.width as int, digits, mark) as nat);
    assert(mark_of(picked).len() == mark);
    assert(row.text@ == mark_of(picked) + cut);
    assert(row.text@.skip(mark) =~= cut);
    if room >= 0 {
        assert(tag_room(viewer, area.width as int, digits, mark) == room);
        law_cut_tags_end_in_dots(tag, room as nat);
        if room >= 4 && total(char_widths(tag)) > room {
            assert(row.text@.skip(row.text@.len() - 3) =~= seq!['.', '.', '.']);
        }
    }
}

/// The tags that are drawn: as many as there are lines, in order, each with its
/// own count, marked where it is picked and highlighted where the cursor is on
/// it.
pub proof fn law_drawn_tags(
    viewer: Viewer,
    area: Area,
    tags: &Vec<String>,
    counts: &Vec<usize>,
    picked: &TagSet,
    focused: bool,
    cursor: Option<usize>,
    rows: Vec<TagRow>,
    i: int,
)
    requires
        area.on_screen(),
        call_ensures(tag_lines, (viewer, area, tags, counts, picked, focused, cursor), rows),
        counts@.len() == tags@.len(),
    ensures
        rows@.len() <= area.height,
        rows@.len() == area.height || rows@.len() == tags@.len(),
        0 <= i < rows@.len() ==> {
            let row = rows@[i];
            &&& row.y == area.y + i
            &&& row.count@ == decimal(counts@[i] as nat)
            &&& row.highlighted <==> focused && cursor == Some(i as usize)
            &&& picked@.contains(tags@[i]@) ==> row.text@.len() >= 2 && row.text@[0] == '>'
                && row.text@[1] == ' '
            &&& !picked@.contains(tags@[i]@) && total(char_widths(tags@[i]@)) + decimal(
                counts@[i] as nat,
            ).len() + 1 <= area.width ==> row.text@ == tags@[i]@
            &&& decimal(counts@[i] as nat).len() + 1 <= area.width ==> row.count_x + decimal(
                counts@[i] as nat,
            ).len() == area.x + area.width
        },
{
    if 0 <= i < rows@.len() {
        law_line_of_a_tag(
            rows@[i],
            viewer,
            area,
            i,
            tags@[i]@,
            counts@[i] as nat,
            picked@.contains(tags@[i]@),
            focused,
            cursor,
        );
        assert(rows@[i].text@.skip(0) =~= rows@[i].text@);
    }
}

/// The preview that is drawn has a line for each line of the text, up to the
/// height of the box.
pub proof fn law_drawn_preview(text: &str, height: usize, width: usize, lines: Vec<String>, i: int)
    requires
        call_ensures(preview_lines, (text, height, width), lines),
    ensures
        lines@.len() <= height,
        lines@.len() == height || lines@.len() == text_lines(text@).len(),
        0 <= i < lines@.len() && !text_lines(text@)[i].contains('\t') && total(
            char_widths(text_lines(text@)[i]),
        ) <= width ==> lines@[i]@ == unbroken(text_lines(text@)[i]),
{
    law_preview_fits(text@, height as nat, width as nat);
    assert(views(lines@).len() == lines@.len());
    if 0 <= i < lines@.len() {
        assert(views(lines@)[i] == lines@[i]@);
        if !text_lines(text@)[i].contains('\t') && total(char_widths(text_lines(text@)[i]))
            <= width {
            law_lines_that_fit_are_shown(text@, height as nat, width as nat, i);
        }
    }
}

/// Where the count of a tag takes the whole line it starts at its left end, after
/// a gap in the embedded viewer.
pub proof fn law_counts_on_narrow_lines(
    row: TagRow,
    viewer: Viewer,
    area: Area,
    i: int,
    tag: Seq<char>,
    count: nat,
    picked: bool,
    focused: bool,
    cursor: Option<usize>,
)
    requires
        is_tag_row(row, viewer, area, i, tag, count, picked, focused, cursor),
        decimal(count).len() >= area.width,
    ensures
        viewer == Viewer::Embedded ==> row.count_x == area.x + 1,
        viewer == Viewer::Standalone ==> row.count_x == area.x,
{
}

} // verus!
