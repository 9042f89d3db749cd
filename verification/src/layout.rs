//! Where the boxes of the screen lie, and the small texts set into their borders.

use vstd::prelude::*;
use crate::render::{less, Area};
use crate::text::{decimal, decimal_text, join2, lemma_decimal_digits};
use crate::width::{display_width, first_of, fit_text, fitted, is_plain, text_width};

verus! {

/// The outer width of the dumps box.
pub const DUMPS_WIDTH: u16 = 23;

/// The inner width of the dumps box.
pub const DUMPS_COLUMN: u16 = 21;

/// The share of the width that the tags box starts from, in percent.
pub const TAGS_PERCENT: u16 = 40;

/// How many columns the tags box gives up to the preview.
pub const TRANSFER: u16 = 10;

/// The columns of the screen.
#[derive(Debug, Clone, Copy, PartialEq, Eq, Structural)]
pub struct Columns {
    pub tags: Area,
    pub dumps: Area,
    pub preview: Area,
}

/// The area of the boxes: it takes in the line below.
pub fn content_area(above: Area) -> (content: Area)
    ensures
        content == (Area {
            height: if above.height < u16::MAX {
                (above.height + 1) as u16
            } else {
                above.height
            },
            ..above
        }),
{
    let height: u16 = if above.height < u16::MAX {
        above.height + 1
    } else {
        above.height
    };
    Area { x: above.x, y: above.y, width: above.width, height }
}

/// The columns where there are tags: the tags box, if it is wide enough, gives
/// some of its width to the preview, and the dumps box between them moves over
/// with its width unchanged.
pub open spec fn columns_of(tags: Area, dumps: Area, preview: Area) -> Columns {
    if tags.width > TRANSFER {
        Columns {
            tags: Area { width: (tags.width - TRANSFER) as u16, ..tags },
            dumps: Area { x: less(dumps.x as int, TRANSFER as int) as u16, ..dumps },
            preview: Area {
                x: less(preview.x as int, TRANSFER as int) as u16,
                width: if preview.width + TRANSFER <= u16::MAX {
                    (preview.width + TRANSFER) as u16
                } else {
                    u16::MAX
                },
                ..preview
            },
        }
    } else {
        Columns { tags, dumps, preview }
    }
}

fn moved_left(x: u16) -> (left: u16)
    ensures
        left == less(x as int, TRANSFER as int),
{
    if x >= TRANSFER {
        x - TRANSFER
    } else {
        0
    }
}

/// The columns where there are tags.
pub fn columns_with_tags(tags: Area, dumps: Area, preview: Area) -> (columns: Columns)
    ensures
        columns == columns_of(tags, dumps, preview),
{
    if tags.width > TRANSFER {
        let width: u16 = if preview.width <= u16::MAX - TRANSFER {
            preview.width + TRANSFER
        } else {
            u16::MAX
        };
        Columns {
            tags: Area { x: tags.x, y: tags.y, width: tags.width - TRANSFER, height: tags.height },
            dumps: Area {
                x: moved_left(dumps.x),
                y: dumps.y,
                width: dumps.width,
                height: dumps.height,
            },
            preview: Area {
                x: moved_left(preview.x),
                y: preview.y,
                width,
                height: preview.height,
            },
        }
    } else {
        Columns { tags, dumps, preview }
    }
}

/// Three columns side by side stay side by side: none covers another, nothing is
/// left free between them, they end where they ended, and the dumps box keeps
/// its width.
pub proof fn law_columns_stay_side_by_side(tags: Area, dumps: Area, preview: Area)
    requires
        tags.x + tags.width == dumps.x,
        dumps.x + dumps.width == preview.x,
        preview.on_screen(),
    ensures
        ({
            let c = columns_of(tags, dumps, preview);
            &&& c.tags.x == tags.x
            &&& c.tags.x + c.tags.width == c.dumps.x
            &&& c.dumps.width == dumps.width
            &&& c.dumps.x + c.dumps.width == c.preview.x
            &&& c.preview.x + c.preview.width == preview.x + preview.width
        }),
{
}

/// The columns where there are no tags: nothing is left for the tags box.
pub fn columns_without_tags(dumps: Area, preview: Area) -> (columns: Columns)
    ensures
        columns.tags == (Area { width: 0, ..dumps }),
        columns.dumps == dumps,
        columns.preview == preview,
{
    Columns {
        tags: Area { x: dumps.x, y: dumps.y, width: 0, height: dumps.height },
        dumps,
        preview,
    }
}

/// How many dumps are visible, of how many.
pub open spec fn counts_of(shown: nat, all: nat) -> Seq<char> {
    decimal(shown) + "/"@ + decimal(all)
}

/// The area of a text of `len` columns in the right end of a line, one column
/// before the edge.
pub open spec fn right_end(area: Area, y: int, len: int) -> Area {
    Area {
        x: (area.x + less(area.width as int, len + 1)) as u16,
        y: y as u16,
        width: len as u16,
        height: 1,
    }
}

/// The counts of the dumps, and where they stand: in the upper border of the
/// dumps box.
pub fn counts_label(dumps: Area, shown: usize, all: usize) -> (label: (String, Area))
    requires
        dumps.on_screen(),
    ensures
        label.0@ == counts_of(shown as nat, all as nat),
        label.0@.len() <= 41,
        is_plain(label.0@),
        label.1 == right_end(dumps, dumps.y as int, label.0@.len() as int),
{
    let left = decimal_text(shown as u64);
    let right = decimal_text(all as u64);
    let text = join2(&join2(&left, "/"), &right);
    proof {
        reveal_strlit("/");
        crate::render::lemma_decimal_of_usize(shown);
        crate::render::lemma_decimal_of_usize(all);
        lemma_decimal_digits(shown as nat);
        lemma_decimal_digits(all as nat);
    }
    assert(is_plain(text@)) by {
        assert forall|i: int| 0 <= i < text@.len() implies ' ' <= #[trigger] text@[i] <= '~' by {
            if i < left@.len() {
                assert(text@[i] == left@[i]);
            } else if i > left@.len() {
                assert(text@[i] == right@[i - left@.len() - 1]);
            }
        }
    }
    let width: u16 = text_width(&text) as u16;
    let x: u16 = if dumps.width > width {
        dumps.x + (dumps.width - width - 1)
    } else {
        dumps.x
    };
    (text, Area { x, y: dumps.y, width, height: 1 })
}

/// The size of the selected dump as it is written: cut where it would take up
/// the whole border.
pub open spec fn size_text(size: Seq<char>, width: int) -> Seq<char> {
    if display_width(size) + 1 >= width {
        fitted(size, less(width, 1) as nat)
    } else {
        size
    }
}

/// The size of the selected dump, cut to its place, and where it stands: in the
/// lower border of the preview box. `None` where there is nothing to write or no
/// room. Printable ASCII is cut after as many characters as there is room for.
pub fn size_label(preview: Area, size: &str) -> (label: Option<(String, Area)>)
    requires
        preview.on_screen(),
    ensures
        label is None <==> size@.len() == 0 || preview.width == 0,
        label matches Some((text, place)) ==> {
            &&& text@ == size_text(size@, preview.width as int)
            &&& is_plain(size@) ==> text@ == first_of(size@, preview.width - 1)
            &&& place == right_end(
                preview,
                preview.y + less(preview.height as int, 1),
                display_width(text@) as int,
            )
        },
{
    if size.is_empty() || preview.width == 0 {
        return None;
    }
    let room: usize = preview.width as usize - 1;
    let text = if text_width(size) >= room {
        fit_text(size, room).0
    } else {
        proof {
            reveal_strlit("");
        }
        join2(size, "")
    };
    let width: usize = text_width(&text);
    let x: u16 = if width < preview.width as usize {
        preview.x + (preview.width - 1 - width as u16)
    } else {
        preview.x
    };
    let y: u16 = if preview.height > 0 {
        preview.y + (preview.height - 1)
    } else {
        preview.y
    };
    Some((text, Area { x, y, width: width as u16, height: 1 }))
}

/// Where the mark of the selected dump stands, if its line is on the screen.
pub fn marker_area(inner: Area, place: usize) -> (area: Option<Area>)
    requires
        inner.on_screen(),
    ensures
        area == if place < inner.height {
            Some(Area { y: (inner.y + place) as u16, height: 1, ..inner })
        } else {
            None::<Area>
        },
{
    if place < inner.height as usize {
        Some(
            Area { x: inner.x, y: inner.y + place as u16, width: inner.width, height: 1 },
        )
    } else {
        None
    }
}

// ---- laws ----

/// A label in a border ends one column before the corner, where it fits, and lies
/// on one line.
pub proof fn law_labels_end_before_the_corner(area: Area, y: u16, len: int)
    requires
        area.on_screen(),
        0 <= len,
        len + 1 <= area.width,
    ensures
        ({
            let place = right_end(area, y as int, len);
            &&& place.x + place.width + 1 == area.x + area.width
            &&& place.x >= area.x
            &&& place.width == len
            &&& place.y == y
            &&& place.height == 1
        }),
{
}

/// The counts read as the number of visible dumps, a slash, and the number of
/// all dumps.
pub proof fn law_counts_read(shown: nat, all: nat)
    ensures
        ({
            let text = counts_of(shown, all);
            let n = decimal(shown).len() as int;
            &&& text.take(n) == decimal(shown)
            &&& text[n] == '/'
            &&& text.skip(n + 1) == decimal(all)
        }),
{
    reveal_strlit("/");
    let text = counts_of(shown, all);
    let n = decimal(shown).len() as int;
    assert(text.take(n) =~= decimal(shown));
    assert(text.skip(n + 1) =~= decimal(all));
}

/// The size is written in full where two columns are left beside it, and is never
/// more than a beginning of itself.
pub proof fn law_size_in_the_border(size: Seq<char>, width: int)
    requires
        width > 0,
    ensures
        display_width(size) + 1 < width ==> size_text(size, width) == size,
        size_text(size, width).len() <= size.len(),
        size_text(size, width) == size.take(size_text(size, width).len() as int),
        display_width(size) + 1 >= width ==> crate::width::total(
            crate::width::char_widths(size_text(size, width)),
        ) <= width - 1,
{
    crate::width::law_fitted_is_a_beginning(size, (width - 1) as nat);
    assert(size.take(size.len() as int) =~= size);
}

/// The boxes take in one line more than the area above the last line, and keep
/// its place and width.
pub proof fn law_boxes_take_in_the_last_line(above: Area, content: Area)
    requires
        call_ensures(content_area, (above,), content),
    ensures
        content.x == above.x && content.y == above.y && content.width == above.width,
        above.height < u16::MAX ==> content.height == above.height + 1,
{
}

/// Without tags the dumps box and the preview stay as they are, and nothing is
/// left for a tags box.
pub proof fn law_columns_without_tags(dumps: Area, preview: Area, columns: Columns)
    requires
        call_ensures(columns_without_tags, (dumps, preview), columns),
    ensures
        columns.dumps == dumps,
        columns.preview == preview,
        columns.tags.width == 0,
{
}

/// With tags, ten columns go from the tags box to the preview where it has more
/// than that; the dumps box keeps its width.
pub proof fn law_columns_with_tags(tags: Area, dumps: Area, preview: Area, columns: Columns)
    requires
        call_ensures(columns_with_tags, (tags, dumps, preview), columns),
        preview.width <= u16::MAX - 10,
    ensures
        columns.dumps.width == dumps.width,
        tags.width > 10 ==> columns.tags.width == tags.width - 10 && columns.preview.width
            == preview.width + 10,
        tags.width <= 10 ==> columns.tags == tags && columns.dumps == dumps && columns.preview
            == preview,
{
}

/// The mark of the selected dump stands on its line, counted from the top of the
/// box, and only where that is on the screen.
pub proof fn law_mark_of_the_selected_dump(inner: Area, place: usize, area: Option<Area>)
    requires
        inner.on_screen(),
        call_ensures(marker_area, (inner, place), area),
    ensures
        area is Some <==> place < inner.height,
        area matches Some(a) ==> a.y == inner.y + place && a.x == inner.x && a.height == 1,
{
}

/// The counts that are drawn are of the visible dumps and of all dumps, in the
/// upper border.
pub proof fn law_drawn_counts(dumps: Area, shown: usize, all: usize, label: (String, Area))
    requires
        dumps.on_screen(),
        call_ensures(counts_label, (dumps, shown, all), label),
    ensures
        label.0@ == decimal(shown as nat) + seq!['/'] + decimal(all as nat),
        label.1.y == dumps.y,
        label.1.height == 1,
        label.1.width == label.0@.len(),
        label.0@.len() < dumps.width ==> label.1.x + label.1.width + 1 == dumps.x + dumps.width,
{
    reveal_strlit("/");
    assert("/"@ =~= seq!['/']);
}

} // verus!
