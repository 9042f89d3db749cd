//! What the keys do.

use vstd::prelude::*;
use crate::browser::{Browser, Focus, Preview};
use crate::listing::{tag_rows, DumpView};
use crate::natural::naturally_sorted;
use crate::tags::{filter_indices_mode, in_use, law_visible_positions, unique_tags, visible};
use crate::text::views;

verus! {

/// A key as the terminal reports it.
#[derive(Debug, Clone, Copy, PartialEq, Eq, Structural)]
pub enum KeyPress {
    Esc,
    Left,
    Right,
    Up,
    Down,
    Enter,
    /// Ctrl-C.
    Interrupt,
    Char(char),
    Other,
}

/// What a key asks for.
#[derive(Debug, Clone, Copy, PartialEq, Eq, Structural)]
pub enum Command {
    Quit,
    /// To the tags.
    Left,
    /// To the dumps.
    Right,
    Up,
    Down,
    /// Pick the tag under the cursor, or drop it.
    Toggle,
    /// Drop all picked tags.
    Clear,
    /// Switch between matching all picked tags and any of them.
    Mode,
    /// Open the selected dump in a pager.
    Open,
    Nothing,
}

/// What is left for the caller to do after a command.
#[derive(Debug, Clone, Copy, PartialEq, Eq, Structural)]
pub enum Effect {
    Quit,
    Show(Preview),
    /// Open the dump at this position in the pager.
    Open(usize),
}

pub open spec fn command_for(key: KeyPress) -> Command {
    match key {
        KeyPress::Esc => Command::Quit,
        KeyPress::Interrupt => Command::Quit,
        KeyPress::Left => Command::Left,
        KeyPress::Right => Command::Right,
        KeyPress::Up => Command::Up,
        KeyPress::Down => Command::Down,
        KeyPress::Enter => Command::Open,
        KeyPress::Char(c) => if c == 'q' {
            Command::Quit
        } else if c == 'h' {
            Command::Left
        } else if c == 'l' {
            Command::Right
        } else if c == 'k' {
            Command::Up
        } else if c == 'j' {
            Command::Down
        } else if c == ' ' {
            Command::Toggle
        } else if c == 'c' {
            Command::Clear
        } else if c == 'm' {
            Command::Mode
        } else {
            Command::Nothing
        },
        KeyPress::Other => Command::Nothing,
    }
}

/// What a key asks for: the arrows or `h`, `j`, `k`, `l`, a space, `c`, `m`,
/// Enter, and Esc, `q` or Ctrl-C.
pub fn command_of(key: KeyPress) -> (command: Command)
    ensures
        command == command_for(key),
{
    match key {
        KeyPress::Esc => Command::Quit,
        KeyPress::Interrupt => Command::Quit,
        KeyPress::Left => Command::Left,
        KeyPress::Right => Command::Right,
        KeyPress::Up => Command::Up,
        KeyPress::Down => Command::Down,
        KeyPress::Enter => Command::Open,
        KeyPress::Char(c) => match c {
            'q' => Command::Quit,
            'h' => Command::Left,
            'l' => Command::Right,
            'k' => Command::Up,
            'j' => Command::Down,
            ' ' => Command::Toggle,
            'c' => Command::Clear,
            'm' => Command::Mode,
            _ => Command::Nothing,
        },
        KeyPress::Other => Command::Nothing,
    }
}

/// `tags` lists the tags of the dumps: each once, in natural order.
pub open spec fn is_tag_list(tags: Seq<Seq<char>>, list: Seq<DumpView>) -> bool {
    &&& tags.no_duplicates()
    &&& naturally_sorted(tags)
    &&& forall|t: Seq<char>| #[trigger] tags.contains(t) <==> in_use(tag_rows(list), t)
}

/// The cursor lies in the list of tags.
pub open spec fn cursor_in(cursor: Option<usize>, tags: nat) -> bool {
    cursor matches Some(i) ==> i < tags
}

/// The cursor brought into a list of `tags` tags: to the top if it was nowhere
/// in it.
pub open spec fn settled_cursor(cursor: Option<usize>, tags: nat) -> Option<usize> {
    if tags == 0 {
        None
    } else {
        match cursor {
            Some(i) if i < tags => cursor,
            _ => Some(0),
        }
    }
}

/// The first position of `x` in `list`.
pub open spec fn index_in(list: Seq<usize>, x: usize) -> Option<usize>
    decreases list.len(),
{
    if list.len() == 0 {
        None
    } else {
        match index_in(list.drop_last(), x) {
            Some(i) => Some(i),
            None => if list.last() == x {
                Some((list.len() - 1) as usize)
            } else {
                None
            },
        }
    }
}

/// The first position of a text in a list.
pub open spec fn text_index(list: Seq<Seq<char>>, t: Seq<char>) -> Option<usize>
    decreases list.len(),
{
    if list.len() == 0 {
        None
    } else {
        match text_index(list.drop_last(), t) {
            Some(i) => Some(i),
            None => if list.last() == t {
                Some((list.len() - 1) as usize)
            } else {
                None
            },
        }
    }
}

/// Where the selection stands among the visible dumps.
pub open spec fn place_among(selected: Option<usize>, display: Seq<usize>) -> Option<usize> {
    match selected {
        Some(s) => index_in(display, s),
        None => None,
    }
}

/// One up, from the top to the bottom; from nowhere to the bottom.
pub open spec fn one_up(place: Option<usize>, len: nat) -> int {
    match place {
        Some(p) if p > 0 => p - 1,
        _ => len - 1,
    }
}

/// One down, from the bottom to the top; from nowhere to the top.
pub open spec fn one_down(place: Option<usize>, len: nat) -> int {
    match place {
        Some(p) if p + 1 < len => p + 1,
        _ => 0,
    }
}

/// The selection kept visible: it stays if it is among the visible dumps, else
/// it goes to the first of them.
pub open spec fn kept_visible(selected: Option<usize>, display: Seq<usize>) -> (
    Option<usize>,
    Preview,
) {
    if display.len() == 0 {
        (None, Preview::Clear)
    } else if selected matches Some(s) && display.contains(s) {
        (selected, Preview::Keep)
    } else {
        (Some(display[0]), Preview::Load(display[0]))
    }
}

/// The cursor on the first tag of a dump, in the list of all tags.
pub open spec fn cursor_for(dump_tags: Seq<Seq<char>>, tags: Seq<Seq<char>>) -> Option<usize> {
    if dump_tags.len() == 0 {
        None
    } else {
        match text_index(tags, dump_tags[0]) {
            Some(i) => Some(i),
            None => if tags.len() > 0 {
                Some(0)
            } else {
                None
            },
        }
    }
}

impl Browser {
    /// The positions of the visible dumps.
    pub open spec fn display(&self) -> Seq<usize> {
        visible(self.selected_tags@, tag_rows(self.listing@), self.match_all)
    }

    /// Everything but the selection and the cursor is as before.
    pub open spec fn only_moved(&self, before: &Browser) -> bool {
        &&& self.viewer == before.viewer
        &&& self.listing == before.listing
        &&& self.selected_tags == before.selected_tags
        &&& self.match_all == before.match_all
        &&& self.focus == before.focus
    }

    /// `self` is `before` with the selection on the dump at `to`.
    pub open spec fn moved_to(&self, before: &Browser, to: usize, effect: Effect) -> bool {
        &&& self.only_moved(before)
        &&& self.selected == Some(to)
        &&& self.tags_selected == if before.listing@[to as int].tags.len() == 0 {
            None::<usize>
        } else {
            Some(0usize)
        }
        &&& effect == Effect::Show(Preview::Load(to))
    }

    /// `self` is `before` with the cursor at `to`.
    pub open spec fn cursor_moved(&self, before: &Browser, to: Option<usize>, effect: Effect) -> bool {
        &&& self.only_moved(before)
        &&& self.selected == before.selected
        &&& self.tags_selected == to
        &&& effect == Effect::Show(Preview::Keep)
    }

    /// What the arrow keys do: move the selection among the visible dumps, or the
    /// cursor among the tags.
    pub open spec fn is_stepped(
        &self,
        before: &Browser,
        up: bool,
        tags: Seq<Seq<char>>,
        effect: Effect,
    ) -> bool {
        match before.focus {
            Focus::Dumps => {
                let display = before.display();
                let place = place_among(before.selected, display);
                if display.len() == 0 {
                    self.cursor_moved(before, before.tags_selected, effect)
                } else if up {
                    self.moved_to(before, display[one_up(place, display.len())], effect)
                } else {
                    self.moved_to(before, display[one_down(place, display.len())], effect)
                }
            },
            Focus::Tags => {
                let to = if before.tags_selected is None || tags.len() == 0 {
                    before.tags_selected
                } else if up {
                    Some(one_up(before.tags_selected, tags.len()) as usize)
                } else {
                    Some(one_down(before.tags_selected, tags.len()) as usize)
                };
                self.cursor_moved(before, to, effect)
            },
        }
    }

    /// `self` is `before` with the tag under the cursor picked, or dropped if it
    /// was picked, and the selection kept visible.
    pub open spec fn is_toggled(
        &self,
        before: &Browser,
        tags: Seq<Seq<char>>,
        effect: Effect,
    ) -> bool {
        if before.focus == Focus::Tags && before.tags_selected is Some && before.tags_selected->0
            < tags.len() {
            let tag = tags[before.tags_selected->0 as int];
            &&& self.viewer == before.viewer
            &&& self.listing == before.listing
            &&& self.match_all == before.match_all
            &&& self.focus == before.focus
            &&& self.tags_selected == before.tags_selected
            &&& self.selected_tags@ == if before.selected_tags@.contains(tag) {
                before.selected_tags@.remove(tag)
            } else {
                before.selected_tags@.insert(tag)
            }
            &&& if before.listing@.len() == 0 {
                self.selected == before.selected && effect == Effect::Show(Preview::Keep)
            } else {
                let (selected, preview) = kept_visible(
                    before.selected,
                    visible(self.selected_tags@, tag_rows(before.listing@), before.match_all),
                );
                self.selected == selected && effect == Effect::Show(preview)
            }
        } else {
            self == before && effect == Effect::Show(Preview::Keep)
        }
    }

    /// `self` is `before` after the command.
    pub open spec fn has_obeyed(
        &self,
        before: &Browser,
        command: Command,
        tags: Seq<Seq<char>>,
        has_pager: bool,
        effect: Effect,
    ) -> bool {
        match command {
            Command::Quit => self == before && effect == Effect::Quit,
            Command::Left => {
                &&& self.viewer == before.viewer
                &&& self.listing == before.listing
                &&& self.selected_tags == before.selected_tags
                &&& self.match_all == before.match_all
                &&& self.focus == Focus::Tags
                &&& self.selected == before.selected
                &&& self.tags_selected == match before.selected {
                    Some(s) => cursor_for(before.listing@[s as int].tags, tags),
                    None => None,
                }
                &&& effect == Effect::Show(Preview::Keep)
            },
            Command::Right => {
                &&& self.viewer == before.viewer
                &&& self.listing == before.listing
                &&& self.selected_tags == before.selected_tags
                &&& self.match_all == before.match_all
                &&& self.focus == Focus::Dumps
                &&& self.selected == before.selected
                &&& self.tags_selected == before.tags_selected
                &&& effect == Effect::Show(Preview::Keep)
            },
            Command::Up => self.is_stepped(before, true, tags, effect),
            Command::Down => self.is_stepped(before, false, tags, effect),
            Command::Toggle => self.is_toggled(before, tags, effect),
            Command::Clear => {
                &&& self.viewer == before.viewer
                &&& self.listing == before.listing
                &&& self.match_all == before.match_all
                &&& self.focus == before.focus
                &&& self.tags_selected == before.tags_selected
                &&& self.selected_tags@ == Set::<Seq<char>>::empty()
                &&& if before.listing@.len() == 0 {
                    self.selected is None && effect == Effect::Show(Preview::Clear)
                } else {
                    self.selected == Some(0usize) && effect == Effect::Show(Preview::Load(0))
                }
            },
            Command::Mode => {
                let (selected, preview) = kept_visible(
                    before.selected,
                    visible(before.selected_tags@, tag_rows(before.listing@), !before.match_all),
                );
                &&& self.viewer == before.viewer
                &&& self.listing == before.listing
                &&& self.selected_tags == before.selected_tags
                &&& self.match_all == !before.match_all
                &&& self.focus == before.focus
                &&& self.tags_selected == before.tags_selected
                &&& self.selected == selected
                &&& effect == Effect::Show(preview)
            },
            Command::Open => self == before && effect == if has_pager && before.selected is Some {
                Effect::Open(before.selected->0)
            } else {
                Effect::Show(Preview::Keep)
            },
            Command::Nothing => self == before && effect == Effect::Show(Preview::Keep),
        }
    }

    /// The tags of the listed dumps, each once, in natural order.
    pub fn tag_list(&self) -> (tags: Vec<String>)
        requires
            self.wf(),
        ensures
            is_tag_list(views(tags@), self.listing@),
    {
        proof {
            self.listing.lemma_tag_rows();
        }
        unique_tags(&self.listing.tags_vec)
    }

    /// The positions of the visible dumps.
    pub fn display_indices(&self) -> (display: Vec<usize>)
        requires
            self.wf(),
        ensures
            display@ == self.display(),
    {
        proof {
            self.listing.lemma_tag_rows();
        }
        filter_indices_mode(&self.selected_tags, &self.listing.tags_vec, self.match_all)
    }

    /// Brings the cursor into a list of `tags` tags.
    pub fn settle_cursor(&mut self, tags: usize)
        requires
            old(self).wf(),
        ensures
            final(self).wf(),
            final(self).only_moved(old(self)),
            final(self).selected == old(self).selected,
            final(self).tags_selected == settled_cursor(old(self).tags_selected, tags as nat),
            cursor_in(final(self).tags_selected, tags as nat),
    {
        if tags == 0 {
            self.tags_selected = None;
        } else {
            match self.tags_selected {
                Some(i) => if i >= tags {
                    self.tags_selected = Some(0);
                },
                None => {
                    self.tags_selected = Some(0);
                },
            }
        }
    }
}

proof fn lemma_index_in(list: Seq<usize>, x: usize)
    requires
        list.len() <= usize::MAX,
    ensures
        index_in(list, x) is Some <==> list.contains(x),
        index_in(list, x) matches Some(i) ==> i < list.len() && list[i as int] == x,
    decreases list.len(),
{
    if list.len() > 0 {
        let shorter = list.drop_last();
        lemma_index_in(shorter, x);
        if shorter.contains(x) {
            let k = choose|k: int| 0 <= k < shorter.len() && shorter[k] == x;
            assert(list[k] == x);
        }
        if list.contains(x) {
            let k = choose|k: int| 0 <= k < list.len() && list[k] == x;
            if k < shorter.len() {
                assert(shorter[k] == x);
            }
        }
    }
}

proof fn lemma_index_in_stays(list: Seq<usize>, x: usize, n: int)
    requires
        0 <= n <= list.len(),
        index_in(list.take(n), x) is Some,
    ensures
        index_in(list, x) == index_in(list.take(n), x),
    decreases list.len() - n,
{
    if n < list.len() {
        assert(list.take(n + 1).drop_last() =~= list.take(n));
        lemma_index_in_stays(list, x, n + 1);
    } else {
        assert(list.take(n) =~= list);
    }
}

proof fn lemma_text_index_stays(list: Seq<Seq<char>>, t: Seq<char>, n: int)
    requires
        0 <= n <= list.len(),
        text_index(list.take(n), t) is Some,
    ensures
        text_index(list, t) == text_index(list.take(n), t),
    decreases list.len() - n,
{
    if n < list.len() {
        assert(list.take(n + 1).drop_last() =~= list.take(n));
        lemma_text_index_stays(list, t, n + 1);
    } else {
        assert(list.take(n) =~= list);
    }
}

/// Where `x` stands in `list`.
pub fn find_index(list: &Vec<usize>, x: usize) -> (at: Option<usize>)
    ensures
        at == index_in(list@, x),
        at is Some <==> list@.contains(x),
        at matches Some(i) ==> i < list@.len() && list@[i as int] == x,
{
    let mut i: usize = 0;
    proof {
        assert(list@.len() == list.len());
        lemma_index_in(list@, x);
        assert(list@.take(0) == Seq::<usize>::empty());
    }
    while i < list.len()
        invariant
            i <= list@.len(),
            index_in(list@.take(i as int), x) is None,
        decreases list@.len() - i,
    {
        assert(list@.take(i + 1).drop_last() =~= list@.take(i as int));
        if list[i] == x {
            proof {
                assert(list@.len() == list.len());
                lemma_index_in_stays(list@, x, i + 1);
                lemma_index_in(list@, x);
            }
            return Some(i);
        }
        i = i + 1;
    }
    assert(list@.take(list@.len() as int) == list@);
    None
}

/// Where `t` stands in `list`.
pub fn find_text(list: &Vec<String>, t: &String) -> (at: Option<usize>)
    ensures
        at == text_index(views(list@), t@),
        at matches Some(i) ==> i < list@.len(),
{
    let ghost texts = views(list@);
    let mut i: usize = 0;
    assert(texts.take(0) == Seq::<Seq<char>>::empty());
    while i < list.len()
        invariant
            i <= list@.len(),
            texts == views(list@),
            text_index(texts.take(i as int), t@) is None,
        decreases list@.len() - i,
    {
        assert(texts.take(i + 1).drop_last() =~= texts.take(i as int));
        if list[i] == *t {
            proof {
                lemma_text_index_stays(texts, t@, i + 1);
            }
            return Some(i);
        }
        i = i + 1;
    }
    assert(texts.take(texts.len() as int) == texts);
    None
}

impl Browser {
    /// Visible dumps are dumps of the list.
    pub proof fn lemma_display_in_list(&self, selected: Set<Seq<char>>, match_all: bool)
        ensures
            forall|k: int|
                0 <= k < visible(selected, tag_rows(self.listing@), match_all).len()
                    ==> #[trigger] visible(selected, tag_rows(self.listing@), match_all)[k]
                    < self.listing@.len(),
    {
        self.listing.lemma_len();
        let rows = tag_rows(self.listing@);
        let shown = visible(selected, rows, match_all);
        law_visible_positions(selected, rows, match_all);
        assert forall|k: int| 0 <= k < shown.len() implies #[trigger] shown[k]
            < self.listing@.len() by {
            assert(shown.contains(shown[k]));
        }
    }

    /// Keeps the selection among the visible dumps.
    fn keep_visible(&mut self, display: &Vec<usize>) -> (preview: Preview)
        requires
            old(self).wf(),
            forall|k: int| 0 <= k < display@.len() ==> #[trigger] display@[k] < old(
                self,
            ).listing@.len(),
        ensures
            final(self).wf(),
            final(self).only_moved(old(self)),
            final(self).tags_selected == old(self).tags_selected,
            (final(self).selected, preview) == kept_visible(old(self).selected, display@),
    {
        if display.len() == 0 {
            self.selected = None;
            return Preview::Clear;
        }
        if let Some(s) = self.selected {
            if find_index(display, s).is_some() {
                return Preview::Keep;
            }
        }
        self.selected = Some(display[0]);
        Preview::Load(display[0])
    }

    /// Moves the selection to the dump at `to`.
    fn select(&mut self, to: usize) -> (effect: Effect)
        requires
            old(self).wf(),
            to < old(self).listing@.len(),
        ensures
            final(self).wf(),
            final(self).moved_to(old(self), to, effect),
    {
        self.selected = Some(to);
        assert(self.listing@[to as int].tags.len() == self.listing.tags_vec@[to as int]@.len());
        self.tags_selected = if self.listing.tags_vec[to].len() == 0 {
            None
        } else {
            Some(0)
        };
        Effect::Show(Preview::Load(to))
    }

    /// Moves one up or down, in the box that has the focus.
    fn step(&mut self, up: bool, tags: &Vec<String>) -> (effect: Effect)
        requires
            old(self).wf(),
            cursor_in(old(self).tags_selected, tags@.len()),
        ensures
            final(self).wf(),
            final(self).is_stepped(old(self), up, views(tags@), effect),
    {
        match self.focus {
            Focus::Dumps => {
                let display = self.display_indices();
                if display.len() == 0 {
                    return Effect::Show(Preview::Keep);
                }
                proof {
                    self.lemma_display_in_list(self.selected_tags@, self.match_all);
                }
                let place = match self.selected {
                    Some(s) => find_index(&display, s),
                    None => None,
                };
                let to: usize = step_from(place, display.len(), up);
                self.select(display[to])
            },
            Focus::Tags => {
                if let Some(i) = self.tags_selected {
                    if tags.len() > 0 {
                        self.tags_selected = Some(step_from(Some(i), tags.len(), up));
                    }
                }
                Effect::Show(Preview::Keep)
            },
        }
    }

    /// Picks the tag under the cursor, or drops it.
    fn toggle(&mut self, tags: &Vec<String>) -> (effect: Effect)
        requires
            old(self).wf(),
        ensures
            final(self).wf(),
            final(self).is_toggled(old(self), views(tags@), effect),
    {
        if self.focus != Focus::Tags {
            return Effect::Show(Preview::Keep);
        }
        let at: usize = match self.tags_selected {
            Some(i) => i,
            None => {
                return Effect::Show(Preview::Keep);
            },
        };
        if at >= tags.len() {
            return Effect::Show(Preview::Keep);
        }
        assert(views(tags@)[at as int] == tags@[at as int]@);
        if self.selected_tags.contains(&tags[at]) {
            self.selected_tags.remove(&tags[at]);
        } else {
            self.selected_tags.insert(tags[at].clone());
        }
        if self.listing.is_empty() {
            return Effect::Show(Preview::Keep);
        }
        proof {
            self.lemma_display_in_list(self.selected_tags@, self.match_all);
        }
        let display = self.display_indices();
        Effect::Show(self.keep_visible(&display))
    }

    /// Carries out a command. `tags` is the list of all tags, and `has_pager`
    /// says whether there is a program to open dumps with.
    pub fn obey(&mut self, command: Command, tags: &Vec<String>, has_pager: bool) -> (effect: Effect)
        requires
            old(self).wf(),
            cursor_in(old(self).tags_selected, tags@.len()),
        ensures
            final(self).wf(),
            final(self).has_obeyed(old(self), command, views(tags@), has_pager, effect),
            effect matches Effect::Open(i) ==> i < final(self).listing@.len(),
    {
        match command {
            Command::Quit => Effect::Quit,
            Command::Left => {
                self.focus = Focus::Tags;
                self.tags_selected = match self.selected {
                    Some(s) => {
                        assert(self.listing@[s as int].tags =~= views(
                            self.listing.tags_vec@[s as int]@,
                        ));
                        if self.listing.tags_vec[s].len() == 0 {
                            None
                        } else {
                            match find_text(tags, &self.listing.tags_vec[s][0]) {
                                Some(i) => Some(i),
                                None => if tags.len() > 0 {
                                    Some(0)
                                } else {
                                    None
                                },
                            }
                        }
                    },
                    None => None,
                };
                Effect::Show(Preview::Keep)
            },
            Command::Right => {
                self.focus = Focus::Dumps;
                Effect::Show(Preview::Keep)
            },
            Command::Up => self.step(true, tags),
            Command::Down => self.step(false, tags),
            Command::Toggle => self.toggle(tags),
            Command::Clear => {
                self.selected_tags.clear();
                if self.listing.is_empty() {
                    self.selected = None;
                    Effect::Show(Preview::Clear)
                } else {
                    self.selected = Some(0);
                    Effect::Show(Preview::Load(0))
                }
            },
            Command::Mode => {
                self.match_all = !self.match_all;
                proof {
                    self.lemma_display_in_list(self.selected_tags@, self.match_all);
                }
                let display = self.display_indices();
                Effect::Show(self.keep_visible(&display))
            },
            Command::Open => match self.selected {
                Some(i) => if has_pager {
                    Effect::Open(i)
                } else {
                    Effect::Show(Preview::Keep)
                },
                None => Effect::Show(Preview::Keep),
            },
            Command::Nothing => Effect::Show(Preview::Keep),
        }
    }
}

/// One step up or down in a list of `len` places, around the ends.
pub fn step_from(place: Option<usize>, len: usize, up: bool) -> (to: usize)
    requires
        len > 0,
        place matches Some(p) ==> p < len,
    ensures
        to < len,
        to == if up {
            one_up(place, len as nat)
        } else {
            one_down(place, len as nat)
        },
{
    if up {
        match place {
            Some(p) => if p > 0 {
                p - 1
            } else {
                len - 1
            },
            None => len - 1,
        }
    } else {
        match place {
            Some(p) => if p + 1 == len {
                0
            } else {
                p + 1
            },
            None => 0,
        }
    }
}

// ---- laws ----

proof fn lemma_text_index(list: Seq<Seq<char>>, t: Seq<char>)
    requires
        list.len() <= usize::MAX,
    ensures
        text_index(list, t) matches Some(i) ==> i < list.len() && list[i as int] == t,
    decreases list.len(),
{
    if list.len() > 0 {
        lemma_text_index(list.drop_last(), t);
    }
}

/// No command takes the cursor out of the list of tags.
pub proof fn law_cursor_stays_in_list(
    before: &Browser,
    after: &Browser,
    command: Command,
    tags: Seq<Seq<char>>,
    has_pager: bool,
    effect: Effect,
)
    requires
        before.wf(),
        tags.len() <= usize::MAX,
        is_tag_list(tags, before.listing@),
        cursor_in(before.tags_selected, tags.len()),
        after.has_obeyed(before, command, tags, has_pager, effect),
    ensures
        cursor_in(after.tags_selected, tags.len()),
{
    let list = before.listing@;
    let rows = tag_rows(list);
    match command {
        Command::Left => {
            if let Some(s) = before.selected {
                if list[s as int].tags.len() > 0 {
                    lemma_text_index(tags, list[s as int].tags[0]);
                }
            }
        },
        Command::Up | Command::Down => {
            if before.focus == Focus::Dumps && before.display().len() > 0 {
                let to = after.selected->0;
                let display = before.display();
                before.lemma_display_in_list(before.selected_tags@, before.match_all);
                lemma_display_len(before);
                if let Some(s) = before.selected {
                    lemma_index_in(display, s);
                }
                assert(to < list.len());
                if list[to as int].tags.len() > 0 {
                    let t = list[to as int].tags[0];
                    assert(rows[to as int].contains(t));
                    assert(in_use(rows, t));
                    assert(tags.contains(t));
                }
            }
        },
        _ => {},
    }
}

/// There are at most as many visible dumps as dumps.
pub proof fn lemma_display_len(b: &Browser)
    ensures
        b.display().len() <= b.listing@.len() <= usize::MAX,
{
    b.listing.lemma_len();
    lemma_visible_len(b.selected_tags@, tag_rows(b.listing@), b.match_all, b.listing@.len());
}

proof fn lemma_visible_len(
    selected: Set<Seq<char>>,
    rows: Seq<Seq<Seq<char>>>,
    match_all: bool,
    n: nat,
)
    ensures
        crate::tags::visible_below(selected, rows, match_all, n).len() <= n,
    decreases n,
{
    if n > 0 {
        lemma_visible_len(selected, rows, match_all, (n - 1) as nat);
    }
}

/// Picking a tag and dropping it again leaves the same tags picked.
pub proof fn law_toggle_undoes_toggle(
    before: &Browser,
    between: &Browser,
    after: &Browser,
    tags: Seq<Seq<char>>,
    first: Effect,
    second: Effect,
)
    requires
        between.is_toggled(before, tags, first),
        after.is_toggled(between, tags, second),
    ensures
        after.selected_tags@ == before.selected_tags@,
{
    assert(after.selected_tags@ =~= before.selected_tags@);
}

/// After a tag was picked or dropped the selection is on a visible dump, or on
/// none where none is visible.
pub proof fn law_toggle_keeps_selection_visible(
    before: &Browser,
    after: &Browser,
    tags: Seq<Seq<char>>,
    effect: Effect,
)
    requires
        after.is_toggled(before, tags, effect),
        before.focus == Focus::Tags,
        before.tags_selected matches Some(i) && i < tags.len(),
        before.listing@.len() > 0,
    ensures
        after.selected is None <==> after.display().len() == 0,
        after.selected matches Some(s) ==> after.display().contains(s),
{
    if after.display().len() > 0 {
        assert(after.display().contains(after.display()[0]));
    }
}

/// After the mode was switched the selection is on a visible dump, or on none
/// where none is visible.
pub proof fn law_mode_keeps_selection_visible(
    before: &Browser,
    after: &Browser,
    tags: Seq<Seq<char>>,
    has_pager: bool,
    effect: Effect,
)
    requires
        before.wf(),
        after.has_obeyed(before, Command::Mode, tags, has_pager, effect),
    ensures
        after.selected is None <==> after.display().len() == 0,
        after.selected matches Some(s) ==> after.display().contains(s),
{
    if after.display().len() > 0 {
        assert(after.display().contains(after.display()[0]));
    }
}

/// Going down and up again, or up and down, brings the selection back to where
/// it was among the visible dumps.
pub proof fn law_up_and_down_cancel(
    before: &Browser,
    between: &Browser,
    after: &Browser,
    up: bool,
    tags: Seq<Seq<char>>,
    first: Effect,
    second: Effect,
)
    requires
        before.wf(),
        before.focus == Focus::Dumps,
        before.selected matches Some(s) && before.display().contains(s),
        between.is_stepped(before, up, tags, first),
        after.is_stepped(between, !up, tags, second),
    ensures
        after.selected == before.selected,
        after.listing == before.listing,
        after.selected_tags == before.selected_tags,
{
    let display = before.display();
    let rows = tag_rows(before.listing@);
    lemma_display_len(before);
    law_visible_positions(before.selected_tags@, rows, before.match_all);
    let s = before.selected->0;
    lemma_index_in(display, s);
    let p = index_in(display, s)->0 as int;
    let n = display.len();
    let q = if up {
        one_up(Some(p as usize), n)
    } else {
        one_down(Some(p as usize), n)
    };
    let to = display[q];
    lemma_index_in(display, to);
    let r = index_in(display, to)->0 as int;
    assert(r == q) by {
        if r < q {
            assert(display[r] < display[q]);
        } else if q < r {
            assert(display[q] < display[r]);
        }
    }
}

/// Without a pager, opening a dump does nothing.
pub proof fn law_nothing_opens_without_a_pager(
    before: &Browser,
    after: &Browser,
    tags: Seq<Seq<char>>,
    effect: Effect,
)
    requires
        after.has_obeyed(before, Command::Open, tags, false, effect),
    ensures
        after == before,
        effect == Effect::Show(Preview::Keep),
{
}

/// The place found is the first one that holds the text; none is found exactly
/// where no place holds it.
pub proof fn law_text_index(list: Seq<Seq<char>>, t: Seq<char>)
    requires
        list.len() <= usize::MAX,
    ensures
        match text_index(list, t) {
            Some(i) => i < list.len() && list[i as int] == t && forall|k: int|
                0 <= k < i ==> #[trigger] list[k] != t,
            None => !list.contains(t),
        },
    decreases list.len(),
{
    if list.len() > 0 {
        let shorter = list.drop_last();
        law_text_index(shorter, t);
        assert forall|k: int| 0 <= k < shorter.len() implies #[trigger] list[k] == shorter[k] by {}
        if text_index(shorter, t) is None {
            assert forall|k: int| 0 <= k < shorter.len() implies #[trigger] list[k] != t by {
                assert(shorter.contains(shorter[k]));
            }
        }
    }
}

/// The same of positions.
pub proof fn law_index_in(list: Seq<usize>, x: usize)
    requires
        list.len() <= usize::MAX,
    ensures
        match index_in(list, x) {
            Some(i) => i < list.len() && list[i as int] == x && forall|k: int|
                0 <= k < i ==> #[trigger] list[k] != x,
            None => !list.contains(x),
        },
    decreases list.len(),
{
    if list.len() > 0 {
        let shorter = list.drop_last();
        law_index_in(shorter, x);
        assert forall|k: int| 0 <= k < shorter.len() implies #[trigger] list[k] == shorter[k] by {}
        if index_in(shorter, x) is None {
            assert forall|k: int| 0 <= k < shorter.len() implies #[trigger] list[k] != x by {
                assert(shorter.contains(shorter[k]));
            }
        }
    }
}

/// Esc, `q` and Ctrl-C leave, and no other key does.
pub proof fn law_keys_that_leave(key: KeyPress)
    ensures
        command_for(key) == Command::Quit <==> key == KeyPress::Esc || key == KeyPress::Interrupt
            || key == KeyPress::Char('q'),
{
}

/// The letters do what the arrows do, and letters without a meaning do nothing.
pub proof fn law_letters(c: char)
    ensures
        command_for(KeyPress::Char('h')) == command_for(KeyPress::Left),
        command_for(KeyPress::Char('j')) == command_for(KeyPress::Down),
        command_for(KeyPress::Char('k')) == command_for(KeyPress::Up),
        command_for(KeyPress::Char('l')) == command_for(KeyPress::Right),
        command_for(KeyPress::Char(c)) != Command::Open,
        command_for(KeyPress::Char(c)) == Command::Toggle <==> c == ' ',
        command_for(KeyPress::Char(c)) == Command::Clear <==> c == 'c',
        command_for(KeyPress::Char(c)) == Command::Mode <==> c == 'm',
        c != 'q' && c != 'h' && c != 'j' && c != 'k' && c != 'l' && c != ' ' && c != 'c' && c != 'm'
            <==> command_for(KeyPress::Char(c)) == Command::Nothing,
{
}

/// A cursor in the list stays; any other goes to the top, or nowhere in an empty
/// list.
pub proof fn law_cursor_settles(cursor: Option<usize>, tags: nat)
    ensures
        cursor is Some && cursor->0 < tags ==> settled_cursor(cursor, tags) == cursor,
        tags > 0 && (cursor is None || cursor->0 >= tags) ==> settled_cursor(cursor, tags) == Some(
            0usize,
        ),
        tags == 0 ==> settled_cursor(cursor, tags) is None,
{
}

/// Everything but the selection, the cursor and the focus is as before.
pub open spec fn same_list_and_filter(before: &Browser, after: &Browser) -> bool {
    &&& after.viewer == before.viewer
    &&& after.listing == before.listing
    &&& after.selected_tags@ == before.selected_tags@
    &&& after.match_all == before.match_all
}

/// Left goes to the tags and sets the cursor on the first tag of the selected
/// dump; it is nowhere where that has none or nothing is selected. Nothing else
/// changes.
pub proof fn law_left_finds_the_first_tag(
    before: &Browser,
    after: &Browser,
    tags: Seq<Seq<char>>,
    has_pager: bool,
    effect: Effect,
)
    requires
        before.wf(),
        tags.len() <= usize::MAX,
        is_tag_list(tags, before.listing@),
        after.has_obeyed(before, Command::Left, tags, has_pager, effect),
    ensures
        same_list_and_filter(before, after),
        after.selected == before.selected,
        after.focus == Focus::Tags,
        effect == Effect::Show(Preview::Keep),
        before.selected is None ==> after.tags_selected is None,
        before.selected matches Some(s) ==> before.listing@[s as int].tags.len() == 0
            ==> after.tags_selected is None,
        before.selected matches Some(s) ==> before.listing@[s as int].tags.len() > 0 ==> (
        after.tags_selected matches Some(i) && i < tags.len() && tags[i as int]
            == before.listing@[s as int].tags[0]),
{
    if let Some(s) = before.selected {
        let own = before.listing@[s as int].tags;
        if own.len() > 0 {
            let rows = tag_rows(before.listing@);
            assert(rows[s as int] == own);
            assert(rows[s as int].contains(own[0]));
            assert(in_use(rows, own[0]));
            assert(tags.contains(own[0]));
            law_text_index(tags, own[0]);
        }
    }
}

/// Right goes to the dumps and changes nothing else.
pub proof fn law_right_only_moves_the_focus(
    before: &Browser,
    after: &Browser,
    tags: Seq<Seq<char>>,
    has_pager: bool,
    effect: Effect,
)
    requires
        after.has_obeyed(before, Command::Right, tags, has_pager, effect),
    ensures
        same_list_and_filter(before, after),
        after.selected == before.selected,
        after.tags_selected == before.tags_selected,
        after.focus == Focus::Dumps,
        effect == Effect::Show(Preview::Keep),
{
}

/// In the dumps, Down goes from the visible dump at place `p` to the next visible
/// one, from the last to the first; Up goes to the one before, from the first to
/// the last. The preview is read, the cursor goes to the top where the dump has
/// tags, and nothing else changes.
pub proof fn law_steps_among_the_dumps(
    before: &Browser,
    after: &Browser,
    up: bool,
    p: int,
    tags: Seq<Seq<char>>,
    has_pager: bool,
    effect: Effect,
)
    requires
        before.wf(),
        before.focus == Focus::Dumps,
        0 <= p < before.display().len(),
        before.selected == Some(before.display()[p]),
        after.has_obeyed(
            before,
            if up {
                Command::Up
            } else {
                Command::Down
            },
            tags,
            has_pager,
            effect,
        ),
    ensures
        same_list_and_filter(before, after),
        after.focus == Focus::Dumps,
        ({
            let n = before.display().len() as int;
            let q = if up {
                (p + n - 1) % n
            } else {
                (p + 1) % n
            };
            let to = before.display()[q];
            &&& after.selected == Some(to)
            &&& effect == Effect::Show(Preview::Load(to))
            &&& before.listing@[to as int].tags.len() == 0 <==> after.tags_selected is None
            &&& before.listing@[to as int].tags.len() > 0 ==> after.tags_selected == Some(0usize)
        }),
{
    let display = before.display();
    let n = display.len() as int;
    lemma_display_len(before);
    law_index_in(display, display[p]);
    law_visible_positions(before.selected_tags@, tag_rows(before.listing@), before.match_all);
    let r = index_in(display, display[p])->0 as int;
    if r < p {
        assert(display[r] < display[p]);
    }
    if p + 1 == n {
        assert((p + 1) % n == 0);
    } else {
        assert((p + 1) % n == p + 1) by (nonlinear_arith)
            requires
                0 <= p,
                p + 1 < n,
        ;
    }
    if p == 0 {
        assert((p + n - 1) % n == n - 1) by (nonlinear_arith)
            requires
                p == 0,
                n > 0,
        ;
    } else {
        assert((p + n - 1) % n == p - 1) by (nonlinear_arith)
            requires
                0 < p < n,
        ;
    }
}

/// In the dumps, with no visible dump selected, Down goes to the first visible
/// one and Up to the last; where none is visible nothing happens.
pub proof fn law_steps_from_nowhere(
    before: &Browser,
    after: &Browser,
    up: bool,
    tags: Seq<Seq<char>>,
    has_pager: bool,
    effect: Effect,
)
    requires
        before.wf(),
        before.focus == Focus::Dumps,
        before.selected matches Some(s) ==> !before.display().contains(s),
        after.has_obeyed(
            before,
            if up {
                Command::Up
            } else {
                Command::Down
            },
            tags,
            has_pager,
            effect,
        ),
    ensures
        same_list_and_filter(before, after),
        after.focus == Focus::Dumps,
        before.display().len() == 0 ==> after.selected == before.selected && after.tags_selected
            == before.tags_selected && effect == Effect::Show(Preview::Keep),
        before.display().len() > 0 && !up ==> after.selected == Some(before.display().first())
            && effect == Effect::Show(Preview::Load(before.display().first())),
        before.display().len() > 0 && up ==> after.selected == Some(before.display().last())
            && effect == Effect::Show(Preview::Load(before.display().last())),
{
    lemma_display_len(before);
    if let Some(s) = before.selected {
        law_index_in(before.display(), s);
    }
}

/// In the tags, Up and Down move the cursor one place, around the ends, and
/// change nothing else; without a cursor they do nothing.
pub proof fn law_steps_among_the_tags(
    before: &Browser,
    after: &Browser,
    up: bool,
    tags: Seq<Seq<char>>,
    has_pager: bool,
    effect: Effect,
)
    requires
        before.focus == Focus::Tags,
        tags.len() <= usize::MAX,
        cursor_in(before.tags_selected, tags.len()),
        after.has_obeyed(
            before,
            if up {
                Command::Up
            } else {
                Command::Down
            },
            tags,
            has_pager,
            effect,
        ),
    ensures
        same_list_and_filter(before, after),
        after.focus == Focus::Tags,
        after.selected == before.selected,
        effect == Effect::Show(Preview::Keep),
        before.tags_selected is None ==> after.tags_selected is None,
        before.tags_selected matches Some(i) ==> (after.tags_selected matches Some(j) && j
            < tags.len() && if up {
            (j + 1) % (tags.len() as int) == i
        } else {
            (i + 1) % (tags.len() as int) == j
        }),
{
    if let Some(i) = before.tags_selected {
        let n = tags.len() as int;
        let j = after.tags_selected->0 as int;
        assert(n % n == 0) by (nonlinear_arith)
            requires
                n > 0,
        ;
        if up {
            if i > 0 {
                assert((j + 1) % n == j + 1) by (nonlinear_arith)
                    requires
                        0 <= j,
                        j + 1 < n,
                ;
            }
        } else {
            if i + 1 < n {
                assert((i + 1) % n == i + 1) by (nonlinear_arith)
                    requires
                        0 <= i,
                        i + 1 < n,
                ;
            }
        }
    }
}

/// A space picks the tag under the cursor if it was not picked, drops it if it
/// was, and touches no other tag, nor the list, the mode, the focus or the
/// cursor.
pub proof fn law_toggle_flips_one_tag(
    before: &Browser,
    after: &Browser,
    tags: Seq<Seq<char>>,
    has_pager: bool,
    effect: Effect,
    i: usize,
)
    requires
        before.focus == Focus::Tags,
        before.tags_selected == Some(i),
        i < tags.len(),
        after.has_obeyed(before, Command::Toggle, tags, has_pager, effect),
    ensures
        after.selected_tags@.contains(tags[i as int]) <==> !before.selected_tags@.contains(
            tags[i as int],
        ),
        forall|t: Seq<char>|
            t != tags[i as int] ==> (#[trigger] after.selected_tags@.contains(t)
                <==> before.selected_tags@.contains(t)),
        after.viewer == before.viewer,
        after.listing == before.listing,
        after.match_all == before.match_all,
        after.focus == before.focus,
        after.tags_selected == before.tags_selected,
{
}

/// A space does nothing while the dumps have the focus or the cursor is nowhere.
pub proof fn law_toggle_needs_a_tag(
    before: &Browser,
    after: &Browser,
    tags: Seq<Seq<char>>,
    has_pager: bool,
    effect: Effect,
)
    requires
        before.focus == Focus::Dumps || before.tags_selected is None,
        after.has_obeyed(before, Command::Toggle, tags, has_pager, effect),
    ensures
        after == before,
        effect == Effect::Show(Preview::Keep),
{
}

/// The command changes which dumps are visible.
pub open spec fn changes_filter(before: &Browser, command: Command, tags: Seq<Seq<char>>) -> bool {
    ||| command == Command::Mode
    ||| command == Command::Toggle && before.focus == Focus::Tags && before.listing@.len() > 0
        && before.tags_selected is Some && before.tags_selected->0 < tags.len()
}

/// A selected dump that is still visible after a tag was picked or dropped, or
/// after the mode was switched, stays selected, and its preview stays. Otherwise
/// the first visible dump is selected and its preview read; where none is
/// visible, nothing is selected and the preview is cleared.
pub proof fn law_visible_selection_stays(
    before: &Browser,
    after: &Browser,
    command: Command,
    tags: Seq<Seq<char>>,
    has_pager: bool,
    effect: Effect,
)
    requires
        changes_filter(before, command, tags),
        after.has_obeyed(before, command, tags, has_pager, effect),
    ensures
        before.selected matches Some(s) ==> after.display().contains(s) ==> after.selected == Some(
            s,
        ) && effect == Effect::Show(Preview::Keep),
        (before.selected is None || !after.display().contains(before.selected->0))
            && after.display().len() > 0 ==> after.selected == Some(after.display().first())
            && effect == Effect::Show(Preview::Load(after.display().first())),
        after.display().len() == 0 ==> after.selected is None && effect == Effect::Show(
            Preview::Clear,
        ),
{
}

/// `m` switches the mode and leaves the list, the picked tags, the focus and the
/// cursor.
pub proof fn law_mode_flips(
    before: &Browser,
    after: &Browser,
    tags: Seq<Seq<char>>,
    has_pager: bool,
    effect: Effect,
)
    requires
        after.has_obeyed(before, Command::Mode, tags, has_pager, effect),
    ensures
        after.match_all <==> !before.match_all,
        after.viewer == before.viewer,
        after.listing == before.listing,
        after.selected_tags@ == before.selected_tags@,
        after.focus == before.focus,
        after.tags_selected == before.tags_selected,
{
}

/// `c` drops every picked tag, so that all dumps are visible, and selects the
/// first dump; in an empty list nothing is selected.
pub proof fn law_clear_shows_everything(
    before: &Browser,
    after: &Browser,
    tags: Seq<Seq<char>>,
    has_pager: bool,
    effect: Effect,
)
    requires
        after.has_obeyed(before, Command::Clear, tags, has_pager, effect),
    ensures
        forall|t: Seq<char>| !#[trigger] after.selected_tags@.contains(t),
        after.display().len() == before.listing@.len(),
        forall|k: int| 0 <= k < after.display().len() ==> #[trigger] after.display()[k] == k,
        after.viewer == before.viewer,
        after.listing == before.listing,
        after.match_all == before.match_all,
        after.focus == before.focus,
        after.tags_selected == before.tags_selected,
        before.listing@.len() > 0 ==> after.selected == Some(0usize) && effect == Effect::Show(
            Preview::Load(0),
        ),
        before.listing@.len() == 0 ==> after.selected is None && effect == Effect::Show(
            Preview::Clear,
        ),
{
    before.listing.lemma_len();
    crate::tags::law_no_tag_shows_all(tag_rows(after.listing@), after.match_all);
}

/// Enter opens the selected dump where there is a pager; it changes nothing.
pub proof fn law_enter_opens_the_selected_dump(
    before: &Browser,
    after: &Browser,
    tags: Seq<Seq<char>>,
    effect: Effect,
)
    requires
        after.has_obeyed(before, Command::Open, tags, true, effect),
    ensures
        after == before,
        before.selected matches Some(s) ==> effect == Effect::Open(s),
        before.selected is None ==> effect == Effect::Show(Preview::Keep),
{
}

/// A dump is visible exactly if it passes the filter with its own tags, and the
/// visible ones are in the order of the list.
pub proof fn law_visible_dumps(b: &Browser)
    ensures
        forall|i: usize| #[trigger]
            b.display().contains(i) <==> i < b.listing@.len() && crate::tags::passes(
                b.selected_tags@,
                b.listing@[i as int].tags,
                b.match_all,
            ),
        forall|j: int, k: int|
            0 <= j < k < b.display().len() ==> (#[trigger] b.display()[j]) < (
            #[trigger] b.display()[k]),
{
    b.listing.lemma_len();
    law_visible_positions(b.selected_tags@, tag_rows(b.listing@), b.match_all);
}

/// The list of tags holds every tag of every listed dump, no other and none
/// twice, in natural order.
pub proof fn law_tag_list(b: &Browser, tags: Vec<String>, i: int, j: int)
    requires
        call_ensures(Browser::tag_list, (b,), tags),
    ensures
        0 <= i < b.listing@.len() && 0 <= j < b.listing@[i].tags.len() ==> exists|k: int|
            0 <= k < tags@.len() && (#[trigger] tags@[k])@ == b.listing@[i].tags[j],
        0 <= i < tags@.len() ==> exists|k: int|
            0 <= k < b.listing@.len() && (#[trigger] b.listing@[k]).tags.contains(tags@[i]@),
        0 <= i < j < tags@.len() ==> tags@[i]@ != tags@[j]@ && crate::natural::natural_order(
            tags@[i]@,
            tags@[j]@,
        ) <= 0,
{
    let rows = tag_rows(b.listing@);
    let list = views(tags@);
    if 0 <= i < b.listing@.len() && 0 <= j < b.listing@[i].tags.len() {
        let t = b.listing@[i].tags[j];
        assert(rows[i] == b.listing@[i].tags);
        assert(rows[i].contains(t));
        assert(in_use(rows, t));
        assert(list.contains(t));
        let k = choose|k: int| 0 <= k < list.len() && list[k] == t;
        assert(tags@[k]@ == t);
    }
    if 0 <= i < tags@.len() {
        assert(list.contains(list[i]));
        assert(in_use(rows, list[i]));
        let k = choose|k: int| 0 <= k < rows.len() && (#[trigger] rows[k]).contains(list[i]);
        assert(b.listing@[k].tags.contains(tags@[i]@));
    }
    if 0 <= i < j < tags@.len() {
        assert(list[i] == tags@[i]@ && list[j] == tags@[j]@);
    }
}

/// The visible dumps that are drawn are those that pass the filter.
pub proof fn law_drawn_dumps(b: &Browser, display: Vec<usize>, i: usize)
    requires
        call_ensures(Browser::display_indices, (b,), display),
    ensures
        display@.contains(i) <==> i < b.listing@.len() && crate::tags::passes(
            b.selected_tags@,
            b.listing@[i as int].tags,
            b.match_all,
        ),
        forall|j: int, k: int|
            0 <= j < k < display@.len() ==> #[trigger] display@[j] < #[trigger] display@[k],
{
    law_visible_dumps(b);
    assert(b.display().contains(i) <==> display@.contains(i));
}

/// A step down undoes a step up, and a step up a step down.
pub proof fn law_steps_cancel(p: usize, len: usize, up: bool, q: usize, r: usize)
    requires
        p < len,
        call_ensures(step_from, (Some(p), len, up), q),
        call_ensures(step_from, (Some(q), len, !up), r),
    ensures
        r == p,
        q < len,
        len > 1 ==> q != p,
{
}

} // verus!
