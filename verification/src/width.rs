//! How much room a text takes on a terminal, and cutting it to fit.

use vstd::prelude::*;
use crate::text::{chars_of, string_of};

verus! {

/// The columns that a text takes.
pub uninterp spec fn display_width(s: Seq<char>) -> nat;

/// `s` consists of printable ASCII characters.
pub open spec fn is_plain(s: Seq<char>) -> bool {
    forall|i: int| 0 <= i < s.len() ==> ' ' <= #[trigger] s[i] <= '~'
}

/// The columns that each character takes by itself.
pub open spec fn char_widths(s: Seq<char>) -> Seq<nat> {
    s.map_values(|c: char| display_width(seq![c]))
}

/// The sum of the widths.
pub open spec fn total(widths: Seq<nat>) -> nat
    decreases widths.len(),
{
    if widths.len() == 0 {
        0
    } else {
        total(widths.drop_last()) + widths.last()
    }
}

/// How many of the pieces fit into `room` columns, counted from the start up to
/// the first one that does not fit.
pub open spec fn fit_count(widths: Seq<nat>, room: nat) -> nat
    decreases widths.len(),
{
    if widths.len() == 0 || widths[0] > room {
        0
    } else {
        1 + fit_count(widths.skip(1), (room - widths[0]) as nat)
    }
}

/// What fits of `s` into `room` columns.
pub open spec fn fitted(s: Seq<char>, room: nat) -> Seq<char> {
    s.take(fit_count(char_widths(s), room) as int)
}

/// The first `n` characters of `s`, or all of it.
pub open spec fn first_of(s: Seq<char>, n: int) -> Seq<char> {
    if s.len() <= n {
        s
    } else {
        s.take(n)
    }
}

/// Measures a text with `unicode_width::UnicodeWidthStr::width`. The width is a
/// function of the text alone; printable ASCII takes one column for each
/// character.
#[verifier::external_body]
pub(crate) fn text_width(s: &str) -> (w: usize)
    ensures
        w == display_width(s@),
        is_plain(s@) ==> w == s@.len(),
{
    unicode_width::UnicodeWidthStr::width(s)
}

/// The pieces that fit are the longest beginning that takes at most `room`
/// columns.
pub proof fn law_fit_is_longest(widths: Seq<nat>, room: nat)
    ensures
        fit_count(widths, room) <= widths.len(),
        total(widths.take(fit_count(widths, room) as int)) <= room,
        forall|n: int|
            fit_count(widths, room) < n <= widths.len() ==> total(#[trigger] widths.take(n)) > room,
    decreases widths.len(),
{
    let k = fit_count(widths, room) as int;
    if widths.len() > 0 && widths[0] <= room {
        let rest = widths.skip(1);
        let left = (room - widths[0]) as nat;
        law_fit_is_longest(rest, left);
        lemma_total_from_front(widths.take(k));
        assert(widths.take(k).skip(1) =~= rest.take(k - 1));
        assert forall|n: int| k < n <= widths.len() implies total(#[trigger] widths.take(n))
            > room by {
            lemma_total_from_front(widths.take(n));
            assert(widths.take(n).skip(1) =~= rest.take(n - 1));
        }
    } else {
        assert(widths.take(0) =~= seq![]);
        assert forall|n: int| k < n <= widths.len() implies total(#[trigger] widths.take(n))
            > room by {
            lemma_total_from_front(widths.take(n));
        }
    }
}

proof fn lemma_total_from_front(widths: Seq<nat>)
    requires
        widths.len() > 0,
    ensures
        total(widths) == widths[0] + total(widths.skip(1)),
    decreases widths.len(),
{
    if widths.len() == 1 {
        assert(widths.drop_last() =~= seq![]);
        assert(widths.skip(1) =~= seq![]);
    } else {
        lemma_total_from_front(widths.drop_last());
        assert(widths.drop_last().skip(1) =~= widths.skip(1).drop_last());
    }
}

pub open spec fn nats(widths: Seq<usize>) -> Seq<nat> {
    widths.map_values(|w: usize| w as nat)
}

/// How many pieces of the given widths fit into `room` columns, and the columns
/// they take.
pub fn fit_widths(widths: &Vec<usize>, room: usize) -> (fit: (usize, usize))
    ensures
        fit.0 == fit_count(nats(widths@), room as nat),
        fit.0 <= widths@.len(),
        fit.1 == total(nats(widths@).take(fit.0 as int)),
        fit.1 <= room,
{
    let ghost all = nats(widths@);
    let mut n: usize = 0;
    let mut used: usize = 0;
    proof {
        assert(all.skip(0) == all);
        assert(all.take(0) =~= seq![]);
    }
    while n < widths.len()
        invariant
            all == nats(widths@),
            n <= widths@.len(),
            used <= room,
            used == total(all.take(n as int)),
            fit_count(all, room as nat) == n + fit_count(all.skip(n as int), (room - used) as nat),
        decreases widths@.len() - n,
    {
        let w: usize = widths[n];
        assert(all.skip(n as int)[0] == w);
        if w > room - used {
            return (n, used);
        }
        assert(all.skip(n as int).skip(1) =~= all.skip(n + 1));
        assert(all.take(n + 1).drop_last() =~= all.take(n as int));
        used = used + w;
        n = n + 1;
    }
    (n, used)
}

/// The columns that each character takes by itself.
pub fn widths_of(chars: &Vec<char>) -> (widths: Vec<usize>)
    ensures
        nats(widths@) == char_widths(chars@),
        is_plain(chars@) ==> forall|i: int|
            0 <= i < chars@.len() ==> #[trigger] char_widths(chars@)[i] == 1,
{
    let mut widths: Vec<usize> = Vec::new();
    let mut i: usize = 0;
    while i < chars.len()
        invariant
            i <= chars@.len(),
            widths@.len() == i,
            forall|k: int| 0 <= k < i ==> #[trigger] widths@[k] == char_widths(chars@)[k],
            is_plain(chars@) ==> forall|k: int|
                0 <= k < i ==> #[trigger] char_widths(chars@)[k] == 1,
        decreases chars@.len() - i,
    {
        let mut s = String::new();
        s.push(chars[i]);
        assert(s@ =~= seq![chars@[i as int]]);
        widths.push(text_width(&s));
        i = i + 1;
    }
    assert(nats(widths@) =~= char_widths(chars@));
    widths
}

/// What fits of `s` into `room` columns, and the columns that its characters
/// take, each by itself.
pub fn fit_text(s: &str, room: usize) -> (cut: (String, usize))
    ensures
        cut.0@ == fitted(s@, room as nat),
        cut.1 == total(char_widths(fitted(s@, room as nat))),
        cut.1 <= room,
        is_plain(s@) ==> cut.0@ == first_of(s@, room as int),
{
    let chars = chars_of(s);
    let widths = widths_of(&chars);
    proof {
        if is_plain(s@) {
            law_narrow_text_fits_by_length(s@, room as nat);
        }
    }
    let fit = fit_widths(&widths, room);
    let cut = string_of(&chars, 0, fit.0);
    assert(cut@ =~= fitted(s@, room as nat));
    assert(char_widths(fitted(s@, room as nat)) =~= char_widths(s@).take(fit.0 as int));
    (cut, fit.1)
}

/// A text whose characters take one column each is cut after `room` characters.
pub proof fn law_narrow_text_fits_by_length(s: Seq<char>, room: nat)
    requires
        forall|i: int| 0 <= i < s.len() ==> #[trigger] char_widths(s)[i] == 1,
    ensures
        fitted(s, room) == first_of(s, room as int),
{
    lemma_fit_ones(char_widths(s), room);
    assert(s.take(s.len() as int) =~= s);
}

proof fn lemma_fit_ones(widths: Seq<nat>, room: nat)
    requires
        forall|i: int| 0 <= i < widths.len() ==> #[trigger] widths[i] == 1,
    ensures
        fit_count(widths, room) == if widths.len() <= room {
            widths.len()
        } else {
            room
        },
    decreases widths.len(),
{
    if widths.len() > 0 && room > 0 {
        lemma_fit_ones(widths.skip(1), (room - 1) as nat);
    }
}

/// What fits is a beginning of the text; all of it where its characters take no
/// more than the room.
pub proof fn law_fitted_is_a_beginning(s: Seq<char>, room: nat)
    ensures
        fitted(s, room).len() <= s.len(),
        fitted(s, room) == s.take(fitted(s, room).len() as int),
        total(char_widths(fitted(s, room))) <= room,
        total(char_widths(s)) <= room ==> fitted(s, room) == s,
        fitted(s, room).len() < s.len() ==> total(
            char_widths(s.take(fitted(s, room).len() as int + 1)),
        ) > room,
{
    let widths = char_widths(s);
    law_fit_is_longest(widths, room);
    let k = fit_count(widths, room) as int;
    assert(fitted(s, room) == s.take(k));
    assert(char_widths(s.take(k)) =~= widths.take(k));
    assert(widths.take(widths.len() as int) =~= widths);
    assert(s.take(s.len() as int) =~= s);
    if k < s.len() {
        assert(char_widths(s.take(k + 1)) =~= widths.take(k + 1));
    }
}

/// The columns of a text add up over its parts, and a character counts for the
/// columns it takes by itself.
pub proof fn law_columns_add_up(a: Seq<char>, b: Seq<char>, c: char)
    ensures
        total(char_widths(a + b)) == total(char_widths(a)) + total(char_widths(b)),
        total(char_widths(seq![c])) == display_width(seq![c]),
        total(char_widths(seq![])) == 0,
    decreases b.len(),
{
    reveal_with_fuel(total, 2);
    let one = char_widths(seq![c]);
    assert(one.drop_last() =~= seq![]);
    if b.len() == 0 {
        assert(a + b =~= a);
    } else {
        law_columns_add_up(a, b.drop_last(), c);
        assert(char_widths(a + b).drop_last() =~= char_widths(a + b.drop_last()));
        assert(char_widths(b).drop_last() =~= char_widths(b.drop_last()));
        assert(char_widths(a + b).last() == char_widths(b).last());
    }
}

} // verus!
