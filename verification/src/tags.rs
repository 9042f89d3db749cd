//! Tags of dumps: the tags picked for filtering, the dumps that a filter lets
//! through, and the list of all tags in use.

use vstd::prelude::*;
use crate::natural::{
    law_natural_order_flips, law_natural_order_transitive, natural_order, natural_sign,
    naturally_sorted,
};
use crate::text::views;

verus! {

/// A set of tags. Each tag is held once.
#[derive(Debug)]
pub struct TagSet {
    tags: Vec<String>,
}

impl View for TagSet {
    type V = Set<Seq<char>>;

    closed spec fn view(&self) -> Set<Seq<char>> {
        views(self.tags@).to_set()
    }
}

/// The tags of each dump.
pub open spec fn rows_of(tags_vec: Seq<Vec<String>>) -> Seq<Seq<Seq<char>>> {
    tags_vec.map_values(|tags: Vec<String>| views(tags@))
}

/// Some dump carries the tag `t`.
pub open spec fn in_use(rows: Seq<Seq<Seq<char>>>, t: Seq<char>) -> bool {
    exists|i: int| 0 <= i < rows.len() && (#[trigger] rows[i]).contains(t)
}

/// A dump with the tags `tags` passes the filter: every picked tag is on it
/// when all have to match, any of them when one is enough. With no tag picked
/// everything passes.
pub open spec fn passes(selected: Set<Seq<char>>, tags: Seq<Seq<char>>, match_all: bool) -> bool {
    if selected == Set::<Seq<char>>::empty() {
        true
    } else if match_all {
        forall|t: Seq<char>| #[trigger] selected.contains(t) ==> tags.contains(t)
    } else {
        exists|t: Seq<char>| #[trigger] selected.contains(t) && tags.contains(t)
    }
}

/// The positions below `n` of the dumps that pass the filter, in order.
pub open spec fn visible_below(
    selected: Set<Seq<char>>,
    rows: Seq<Seq<Seq<char>>>,
    match_all: bool,
    n: nat,
) -> Seq<usize>
    decreases n,
{
    if n == 0 {
        seq![]
    } else {
        let before = visible_below(selected, rows, match_all, (n - 1) as nat);
        if passes(selected, rows[n - 1], match_all) {
            before.push((n - 1) as usize)
        } else {
            before
        }
    }
}

/// The positions of the dumps that pass the filter, in order.
pub open spec fn visible(
    selected: Set<Seq<char>>,
    rows: Seq<Seq<Seq<char>>>,
    match_all: bool,
) -> Seq<usize> {
    visible_below(selected, rows, match_all, rows.len())
}

/// How many of the first `n` dumps carry the tag `t`.
pub open spec fn carriers(rows: Seq<Seq<Seq<char>>>, t: Seq<char>, n: nat) -> nat
    decreases n,
{
    if n == 0 {
        0
    } else {
        carriers(rows, t, (n - 1) as nat) + if rows[n - 1].contains(t) {
            1nat
        } else {
            0
        }
    }
}

/// Whether `tag` occurs in `list`.
pub fn contains_tag(list: &Vec<String>, tag: &String) -> (yes: bool)
    ensures
        yes == views(list@).contains(tag@),
{
    let mut i: usize = 0;
    while i < list.len()
        invariant
            i <= list@.len(),
            forall|k: int| 0 <= k < i ==> #[trigger] views(list@)[k] != tag@,
        decreases list@.len() - i,
    {
        if list[i] == *tag {
            assert(views(list@)[i as int] == tag@);
            return true;
        }
        i = i + 1;
    }
    false
}

impl TagSet {
    #[verifier::type_invariant]
    spec fn each_once(self) -> bool {
        views(self.tags@).no_duplicates()
    }

    /// The empty set.
    pub fn new() -> (set: TagSet)
        ensures
            set@ == Set::<Seq<char>>::empty(),
    {
        let set = TagSet { tags: Vec::new() };
        assert(set@ =~= Set::<Seq<char>>::empty());
        set
    }

    /// Whether no tag is in the set.
    pub fn is_empty(&self) -> (yes: bool)
        ensures
            yes == (self@ == Set::<Seq<char>>::empty()),
    {
        if self.tags.len() == 0 {
            assert(self@ =~= Set::<Seq<char>>::empty());
            true
        } else {
            assert(views(self.tags@).contains(views(self.tags@)[0]));
            assert(self@.contains(views(self.tags@)[0]));
            false
        }
    }

    /// Whether `tag` is in the set.
    pub fn contains(&self, tag: &String) -> (yes: bool)
        ensures
            yes == self@.contains(tag@),
    {
        contains_tag(&self.tags, tag)
    }

    /// Puts `tag` into the set.
    pub fn insert(&mut self, tag: String)
        ensures
            final(self)@ == old(self)@.insert(tag@),
    {
        proof {
            use_type_invariant(&*self);
        }
        let ghost before = views(self.tags@);
        if contains_tag(&self.tags, &tag) {
            assert(self@.insert(tag@) =~= self@);
            return ;
        }
        let mut tags: Vec<String> = Vec::new();
        std::mem::swap(&mut tags, &mut self.tags);
        let ghost t = tag@;
        tags.push(tag);
        proof {
            assert(views(tags@) =~= before.push(t));
            assert forall|x: Seq<char>| views(tags@).contains(x) <==> before.contains(x) || x
                == t by {
                if before.contains(x) {
                    let k = choose|k: int| 0 <= k < before.len() && before[k] == x;
                    assert(views(tags@)[k] == x);
                }
                if x == t {
                    assert(views(tags@)[before.len() as int] == x);
                }
            }
        }
        self.tags = tags;
        assert(self@ =~= old(self)@.insert(t));
    }

    /// Takes `tag` out of the set.
    pub fn remove(&mut self, tag: &String)
        ensures
            final(self)@ == old(self)@.remove(tag@),
    {
        proof {
            use_type_invariant(&*self);
        }
        let ghost before = views(self.tags@);
        let mut i: usize = 0;
        while i < self.tags.len()
            invariant
                self.tags@ == old(self).tags@,
                before == views(self.tags@),
                before.no_duplicates(),
                i <= self.tags@.len(),
                forall|k: int| 0 <= k < i ==> #[trigger] before[k] != tag@,
            decreases self.tags@.len() - i,
        {
            if self.tags[i] == *tag {
                assert(before[i as int] == tag@);
                let mut tags: Vec<String> = Vec::new();
                std::mem::swap(&mut tags, &mut self.tags);
                tags.remove(i);
                proof {
                    let after = views(tags@);
                    assert(after =~= before.remove(i as int));
                    assert forall|x: Seq<char>| after.contains(x) <==> before.contains(x) && x
                        != tag@ by {
                        if after.contains(x) {
                            let k = choose|k: int| 0 <= k < after.len() && after[k] == x;
                            let m = if k < i { k } else { k + 1 };
                            assert(before[m] == x);
                        }
                        if before.contains(x) && x != tag@ {
                            let m = choose|m: int| 0 <= m < before.len() && before[m] == x;
                            let k = if m < i { m } else { m - 1 };
                            assert(after[k] == x);
                        }
                    }
                }
                self.tags = tags;
                assert(self@ =~= old(self)@.remove(tag@));
                return ;
            }
            i = i + 1;
        }
        assert(!before.contains(tag@));
        assert(self@.remove(tag@) =~= self@);
    }

    /// Keeps only the tags that some dump carries.
    pub fn retain_used(&mut self, tags_vec: &Vec<Vec<String>>)
        ensures
            forall|t: Seq<char>| #[trigger]
                final(self)@.contains(t) <==> old(self)@.contains(t) && in_use(rows_of(tags_vec@), t),
    {
        proof {
            use_type_invariant(&*self);
        }
        let ghost before = views(self.tags@);
        let mut kept: Vec<String> = Vec::new();
        let mut i: usize = 0;
        while i < self.tags.len()
            invariant
                self.tags@ == old(self).tags@,
                before == views(self.tags@),
                before.no_duplicates(),
                i <= self.tags@.len(),
                views(kept@).no_duplicates(),
                forall|t: Seq<char>| #[trigger]
                    views(kept@).contains(t) <==> before.take(i as int).contains(t) && in_use(
                        rows_of(tags_vec@),
                        t,
                    ),
            decreases self.tags@.len() - i,
        {
            let ghost t0 = before[i as int];
            let ghost kept0 = views(kept@);
            assert(before.take(i + 1) =~= before.take(i as int).push(t0));
            assert(!before.take(i as int).contains(t0));
            assert(!kept0.contains(t0));
            if tag_in_use(tags_vec, &self.tags[i]) {
                kept.push(self.tags[i].clone());
                assert(views(kept@) =~= kept0.push(t0));
                assert forall|a: int, b: int|
                    0 <= a < views(kept@).len() && 0 <= b < views(kept@).len() && a
                        != b implies views(kept@)[a] != views(kept@)[b] by {
                    assert(a < kept0.len() ==> kept0.contains(kept0[a]));
                    assert(b < kept0.len() ==> kept0.contains(kept0[b]));
                }
            }
            assert forall|t: Seq<char>| #[trigger]
                views(kept@).contains(t) <==> before.take(i + 1).contains(t) && in_use(
                rows_of(tags_vec@),
                t,
            ) by {
                lemma_push_contains(kept0, t0, t);
                lemma_push_contains(before.take(i as int), t0, t);
            }
            i = i + 1;
        }
        assert(before.take(before.len() as int) == before);
        self.tags = kept;
    }

    /// Empties the set.
    pub fn clear(&mut self)
        ensures
            final(self)@ == Set::<Seq<char>>::empty(),
    {
        self.tags = Vec::new();
        assert(self@ =~= Set::<Seq<char>>::empty());
    }
}

proof fn lemma_push_contains(list: Seq<Seq<char>>, x: Seq<char>, t: Seq<char>)
    ensures
        list.push(x).contains(t) <==> list.contains(t) || t == x,
{
    let longer = list.push(x);
    if list.contains(t) {
        let k = choose|k: int| 0 <= k < list.len() && list[k] == t;
        assert(longer[k] == t);
    }
    if t == x {
        assert(longer[list.len() as int] == t);
    }
    if longer.contains(t) {
        let k = choose|k: int| 0 <= k < longer.len() && longer[k] == t;
        if k < list.len() {
            assert(list[k] == t);
        }
    }
}

proof fn lemma_insert_contains(list: Seq<Seq<char>>, at: int, x: Seq<char>, t: Seq<char>)
    requires
        0 <= at <= list.len(),
    ensures
        list.insert(at, x).contains(t) <==> list.contains(t) || t == x,
{
    let longer = list.insert(at, x);
    if list.contains(t) {
        let k = choose|k: int| 0 <= k < list.len() && list[k] == t;
        assert(longer[if k < at { k } else { k + 1 }] == t);
    }
    if t == x {
        assert(longer[at] == t);
    }
    if longer.contains(t) {
        let k = choose|k: int| 0 <= k < longer.len() && longer[k] == t;
        if k < at {
            assert(list[k] == t);
        } else if k > at {
            assert(list[k - 1] == t);
        }
    }
}

/// Whether some dump carries `tag`.
pub fn tag_in_use(tags_vec: &Vec<Vec<String>>, tag: &String) -> (yes: bool)
    ensures
        yes == in_use(rows_of(tags_vec@), tag@),
{
    let mut i: usize = 0;
    while i < tags_vec.len()
        invariant
            i <= tags_vec@.len(),
            forall|k: int| 0 <= k < i ==> !(#[trigger] rows_of(tags_vec@)[k]).contains(tag@),
        decreases tags_vec@.len() - i,
    {
        if contains_tag(&tags_vec[i], tag) {
            assert(rows_of(tags_vec@)[i as int].contains(tag@));
            return true;
        }
        i = i + 1;
    }
    false
}

/// Whether a dump with the tags `tags` passes the filter.
pub fn passes_filter(selected_tags: &TagSet, tags: &Vec<String>, match_all: bool) -> (yes: bool)
    ensures
        yes == passes(selected_tags@, views(tags@), match_all),
{
    if selected_tags.is_empty() {
        return true;
    }
    let need = &selected_tags.tags;
    let ghost wanted = views(need@);
    let mut i: usize = 0;
    while i < need.len()
        invariant
            need == &selected_tags.tags,
            wanted == views(need@),
            selected_tags@ != Set::<Seq<char>>::empty(),
            i <= need@.len(),
            forall|k: int|
                0 <= k < i ==> views(tags@).contains(#[trigger] wanted[k]) == match_all,
        decreases need@.len() - i,
    {
        assert(wanted.contains(wanted[i as int]));
        assert(selected_tags@.contains(wanted[i as int]));
        if contains_tag(tags, &need[i]) != match_all {
            return !match_all;
        }
        i = i + 1;
    }
    assert forall|t: Seq<char>| #[trigger] selected_tags@.contains(t) implies views(tags@).contains(
        t,
    ) == match_all by {
        let k = choose|k: int| 0 <= k < wanted.len() && wanted[k] == t;
        assert(views(tags@).contains(wanted[k]) == match_all);
    }
    match_all
}

/// The positions of the dumps that the picked tags let through: with
/// `match_all` a dump needs all of them, without it any one.
pub fn filter_indices_mode(
    selected_tags: &TagSet,
    tags_vec: &Vec<Vec<String>>,
    match_all: bool,
) -> (out: Vec<usize>)
    ensures
        out@ == visible(selected_tags@, rows_of(tags_vec@), match_all),
{
    let mut out: Vec<usize> = Vec::new();
    let mut i: usize = 0;
    while i < tags_vec.len()
        invariant
            i <= tags_vec@.len(),
            out@ == visible_below(selected_tags@, rows_of(tags_vec@), match_all, i as nat),
        decreases tags_vec@.len() - i,
    {
        if passes_filter(selected_tags, &tags_vec[i], match_all) {
            out.push(i);
        }
        i = i + 1;
    }
    out
}

/// The visible positions are those of the dumps that pass, each once, in
/// ascending order.
pub proof fn law_visible_positions(
    selected: Set<Seq<char>>,
    rows: Seq<Seq<Seq<char>>>,
    match_all: bool,
)
    requires
        rows.len() <= usize::MAX,
    ensures
        forall|i: usize|
            #![trigger visible(selected, rows, match_all).contains(i)]
            visible(selected, rows, match_all).contains(i) <==> i < rows.len() && passes(
                selected,
                rows[i as int],
                match_all,
            ),
        forall|j: int, k: int|
            0 <= j < k < visible(selected, rows, match_all).len() ==> (#[trigger] visible(
                selected,
                rows,
                match_all,
            )[j]) < (#[trigger] visible(selected, rows, match_all)[k]),
{
    lemma_visible_below(selected, rows, match_all, rows.len());
}

proof fn lemma_visible_below(
    selected: Set<Seq<char>>,
    rows: Seq<Seq<Seq<char>>>,
    match_all: bool,
    n: nat,
)
    requires
        n <= rows.len() <= usize::MAX,
    ensures
        forall|i: usize|
            #![trigger visible_below(selected, rows, match_all, n).contains(i)]
            visible_below(selected, rows, match_all, n).contains(i) <==> i < n && passes(
                selected,
                rows[i as int],
                match_all,
            ),
        forall|j: int, k: int|
            0 <= j < k < visible_below(selected, rows, match_all, n).len() ==> (
            #[trigger] visible_below(selected, rows, match_all, n)[j]) < (
            #[trigger] visible_below(selected, rows, match_all, n)[k]),
    decreases n,
{
    if n > 0 {
        let m = (n - 1) as nat;
        lemma_visible_below(selected, rows, match_all, m);
        let before = visible_below(selected, rows, match_all, m);
        let now = visible_below(selected, rows, match_all, n);
        assert forall|j: int| 0 <= j < before.len() implies #[trigger] before[j] < m by {
            assert(before.contains(before[j]));
        }
        assert forall|i: usize| #[trigger] now.contains(i) <==> i < n && passes(
            selected,
            rows[i as int],
            match_all,
        ) by {
            if now.contains(i) {
                let k = choose|k: int| 0 <= k < now.len() && now[k] == i;
                if k < before.len() {
                    assert(before.contains(i));
                }
            }
            if i < n && passes(selected, rows[i as int], match_all) {
                if i < m {
                    assert(before.contains(i));
                    let k = choose|k: int| 0 <= k < before.len() && before[k] == i;
                    assert(now[k] == i);
                } else {
                    assert(now[before.len() as int] == i);
                }
            }
        }
    }
}

/// All tags in use, each once, in natural order.
pub fn unique_tags(tags_vec: &Vec<Vec<String>>) -> (list: Vec<String>)
    ensures
        views(list@).no_duplicates(),
        naturally_sorted(views(list@)),
        forall|t: Seq<char>| #[trigger] views(list@).contains(t) <==> in_use(rows_of(tags_vec@), t),
{
    let mut list: Vec<String> = Vec::new();
    let mut i: usize = 0;
    while i < tags_vec.len()
        invariant
            i <= tags_vec@.len(),
            views(list@).no_duplicates(),
            naturally_sorted(views(list@)),
            forall|t: Seq<char>| #[trigger]
                views(list@).contains(t) <==> in_use(rows_of(tags_vec@).take(i as int), t),
        decreases tags_vec@.len() - i,
    {
        let ghost done = rows_of(tags_vec@).take(i as int);
        let row = &tags_vec[i];
        let mut j: usize = 0;
        while j < row.len()
            invariant
                i < tags_vec@.len(),
                row == &tags_vec@[i as int],
                done == rows_of(tags_vec@).take(i as int),
                j <= row@.len(),
                views(list@).no_duplicates(),
                naturally_sorted(views(list@)),
                forall|t: Seq<char>| #[trigger]
                    views(list@).contains(t) <==> in_use(done, t) || views(row@).take(
                        j as int,
                    ).contains(t),
            decreases row@.len() - j,
        {
            let ghost before = views(list@);
            let ghost t0 = row@[j as int]@;
            insert_tag(&mut list, &row[j]);
            assert(views(row@).take(j + 1) =~= views(row@).take(j as int).push(t0));
            assert forall|t: Seq<char>| #[trigger]
                views(list@).contains(t) <==> in_use(done, t) || views(row@).take(
                j + 1,
            ).contains(t) by {
                lemma_push_contains(views(row@).take(j as int), t0, t);
            }
            j = j + 1;
        }
        let ghost next = rows_of(tags_vec@).take(i + 1);
        assert(views(row@).take(row@.len() as int) =~= views(row@));
        assert forall|t: Seq<char>| #[trigger] views(list@).contains(t) <==> in_use(next, t) by {
            if in_use(done, t) {
                let k = choose|k: int| 0 <= k < done.len() && (#[trigger] done[k]).contains(t);
                assert(next[k].contains(t));
            }
            if views(row@).contains(t) {
                assert(next[i as int].contains(t));
            }
            if in_use(next, t) {
                let k = choose|k: int| 0 <= k < next.len() && (#[trigger] next[k]).contains(t);
                if k < i {
                    assert(done[k].contains(t));
                }
            }
        }
        i = i + 1;
    }
    assert(rows_of(tags_vec@).take(tags_vec@.len() as int) =~= rows_of(tags_vec@));
    list
}

/// Puts `tag` at its place in a sorted list, unless it is there.
fn insert_tag(list: &mut Vec<String>, tag: &String)
    requires
        views(old(list)@).no_duplicates(),
        naturally_sorted(views(old(list)@)),
    ensures
        views(final(list)@).no_duplicates(),
        naturally_sorted(views(final(list)@)),
        forall|t: Seq<char>| #[trigger]
            views(final(list)@).contains(t) <==> views(old(list)@).contains(t) || t == tag@,
{
    let ghost before = views(list@);
    if contains_tag(list, tag) {
        return ;
    }
    let mut p: usize = 0;
    while p < list.len() && natural_sign(tag, &list[p]) >= 0
        invariant
            list@ == old(list)@,
            before == views(list@),
            p <= list@.len(),
            forall|k: int| 0 <= k < p ==> natural_order(tag@, #[trigger] before[k]) >= 0,
        decreases list@.len() - p,
    {
        assert(before[p as int] == list@[p as int]@);
        p = p + 1;
    }
    list.insert(p, tag.clone());
    proof {
        let after = views(list@);
        assert(after =~= before.insert(p as int, tag@));
        assert forall|t: Seq<char>| #[trigger] after.contains(t) <==> before.contains(t) || t
            == tag@ by {
            lemma_insert_contains(before, p as int, tag@, t);
        }
        assert forall|i: int, j: int| 0 <= i < j < after.len() implies natural_order(
            #[trigger] after[i],
            #[trigger] after[j],
        ) <= 0 by {
            if j == p {
                law_natural_order_flips(tag@, before[i]);
            } else if i == p {
                assert(natural_order(tag@, before[p as int]) < 0);
                if j - 1 > p {
                    assert(natural_order(before[p as int], before[j - 1]) <= 0);
                    law_natural_order_transitive(tag@, before[p as int], before[j - 1]);
                }
            } else {
                let a = if i < p { i } else { i - 1 };
                let b = if j < p { j } else { j - 1 };
                assert(natural_order(before[a], before[b]) <= 0);
            }
        }
        assert forall|i: int, j: int|
            0 <= i < after.len() && 0 <= j < after.len() && i != j implies after[i] != after[j] by {
            assert(i != p ==> before.contains(after[i]));
            assert(j != p ==> before.contains(after[j]));
        }
    }
}

/// For each tag of `tags`, how many dumps carry it.
pub fn tag_counts(tags: &Vec<String>, tags_vec: &Vec<Vec<String>>) -> (counts: Vec<usize>)
    ensures
        counts@.len() == tags@.len(),
        forall|k: int|
            0 <= k < tags@.len() ==> #[trigger] counts@[k] == carriers(
                rows_of(tags_vec@),
                tags@[k]@,
                tags_vec@.len(),
            ),
{
    let mut counts: Vec<usize> = Vec::new();
    let mut k: usize = 0;
    while k < tags.len()
        invariant
            k <= tags@.len(),
            counts@.len() == k,
            forall|m: int|
                0 <= m < k ==> #[trigger] counts@[m] == carriers(
                    rows_of(tags_vec@),
                    tags@[m]@,
                    tags_vec@.len(),
                ),
        decreases tags@.len() - k,
    {
        let mut n: usize = 0;
        let mut i: usize = 0;
        while i < tags_vec.len()
            invariant
                k < tags@.len(),
                i <= tags_vec@.len(),
                n <= i,
                n == carriers(rows_of(tags_vec@), tags@[k as int]@, i as nat),
            decreases tags_vec@.len() - i,
        {
            if contains_tag(&tags_vec[i], &tags[k]) {
                n = n + 1;
            }
            i = i + 1;
        }
        counts.push(n);
        k = k + 1;
    }
    counts
}

// ---- laws ----

proof fn lemma_all_visible_below(rows: Seq<Seq<Seq<char>>>, match_all: bool, n: nat)
    requires
        n <= rows.len(),
    ensures
        visible_below(Set::empty(), rows, match_all, n) == Seq::new(n, |i: int| i as usize),
    decreases n,
{
    if n > 0 {
        lemma_all_visible_below(rows, match_all, (n - 1) as nat);
    }
    assert(visible_below(Set::empty(), rows, match_all, n) =~= Seq::new(n, |i: int| i as usize));
}

/// With no tag picked every dump is visible.
pub proof fn law_no_tag_shows_all(rows: Seq<Seq<Seq<char>>>, match_all: bool)
    ensures
        visible(Set::empty(), rows, match_all) == Seq::new(rows.len(), |i: int| i as usize),
{
    lemma_all_visible_below(rows, match_all, rows.len());
}

/// A dump that passes when all picked tags have to match also passes when one
/// is enough.
pub proof fn law_all_is_stricter_than_any(selected: Set<Seq<char>>, tags: Seq<Seq<char>>)
    ensures
        passes(selected, tags, true) ==> passes(selected, tags, false),
{
    if selected != Set::<Seq<char>>::empty() && passes(selected, tags, true) {
        if forall|t: Seq<char>| !#[trigger] selected.contains(t) {
            assert(selected =~= Set::<Seq<char>>::empty());
        }
        let t = choose|t: Seq<char>| #[trigger] selected.contains(t);
        assert(tags.contains(t));
    }
}

/// Picking more tags hides dumps, and shows none that was hidden, when all of
/// them have to match.
pub proof fn law_more_tags_show_fewer(
    few: Set<Seq<char>>,
    many: Set<Seq<char>>,
    tags: Seq<Seq<char>>,
)
    requires
        few.subset_of(many),
    ensures
        passes(many, tags, true) ==> passes(few, tags, true),
{
    if passes(many, tags, true) && few != Set::<Seq<char>>::empty() {
        assert forall|t: Seq<char>| #[trigger] few.contains(t) implies tags.contains(t) by {
            assert(many.contains(t));
        }
    }
}

/// Picking more tags shows dumps, and hides none that was visible, when one of
/// them is enough. The first tag picked is another matter: before it everything
/// was visible.
pub proof fn law_more_tags_show_more(
    few: Set<Seq<char>>,
    many: Set<Seq<char>>,
    tags: Seq<Seq<char>>,
)
    requires
        few.subset_of(many),
        few != Set::<Seq<char>>::empty(),
    ensures
        passes(few, tags, false) ==> passes(many, tags, false),
{
    if passes(few, tags, false) {
        let t = choose|t: Seq<char>| #[trigger] few.contains(t) && tags.contains(t);
        assert(many.contains(t));
    }
}

/// With a single tag picked both modes show the dumps that carry it.
pub proof fn law_one_tag_shows_its_dumps(t: Seq<char>, tags: Seq<Seq<char>>, match_all: bool)
    ensures
        passes(set![t], tags, match_all) <==> tags.contains(t),
{
    assert(set![t].contains(t));
    assert(set![t] != Set::<Seq<char>>::empty());
}

proof fn lemma_carriers_visible(rows: Seq<Seq<Seq<char>>>, t: Seq<char>, match_all: bool, n: nat)
    requires
        n <= rows.len(),
    ensures
        visible_below(set![t], rows, match_all, n).len() == carriers(rows, t, n),
    decreases n,
{
    if n > 0 {
        lemma_carriers_visible(rows, t, match_all, (n - 1) as nat);
        law_one_tag_shows_its_dumps(t, rows[n - 1], match_all);
    }
}

/// The count beside a tag is the number of dumps that are visible when it is
/// picked alone.
pub proof fn law_count_is_what_the_tag_shows(
    rows: Seq<Seq<Seq<char>>>,
    t: Seq<char>,
    match_all: bool,
)
    ensures
        visible(set![t], rows, match_all).len() == carriers(rows, t, rows.len()),
{
    lemma_carriers_visible(rows, t, match_all, rows.len());
}

/// A tag is in use exactly if it stands somewhere among the tags of the dumps.
pub proof fn law_tags_in_use(rows: Seq<Seq<Seq<char>>>, t: Seq<char>, i: int, j: int)
    ensures
        0 <= i < rows.len() && 0 <= j < rows[i].len() && rows[i][j] == t ==> in_use(rows, t),
        in_use(rows, t) ==> exists|a: int, b: int|
            0 <= a < rows.len() && 0 <= b < rows[a].len() && #[trigger] rows[a][b] == t,
{
    if 0 <= i < rows.len() && 0 <= j < rows[i].len() && rows[i][j] == t {
        assert(rows[i].contains(t));
    }
    if in_use(rows, t) {
        let a = choose|a: int| 0 <= a < rows.len() && (#[trigger] rows[a]).contains(t);
        let b = choose|b: int| 0 <= b < rows[a].len() && rows[a][b] == t;
        assert(rows[a][b] == t);
    }
}

/// When all picked tags have to match, a dump passes two groups of picked tags
/// together exactly if it passes each.
pub proof fn law_all_is_and(a: Set<Seq<char>>, b: Set<Seq<char>>, tags: Seq<Seq<char>>)
    ensures
        passes(a.union(b), tags, true) <==> passes(a, tags, true) && passes(b, tags, true),
{
    law_more_tags_show_fewer(a, a.union(b), tags);
    law_more_tags_show_fewer(b, a.union(b), tags);
    if passes(a, tags, true) && passes(b, tags, true) && a.union(b) != Set::<Seq<char>>::empty() {
        assert forall|t: Seq<char>| #[trigger] a.union(b).contains(t) implies tags.contains(t) by {
            if a.contains(t) {
                assert(a != Set::<Seq<char>>::empty());
            } else {
                assert(b.contains(t));
                assert(b != Set::<Seq<char>>::empty());
            }
        }
    }
}

/// When one picked tag is enough, a dump passes two groups of picked tags
/// together exactly if it passes one of them.
pub proof fn law_any_is_or(a: Set<Seq<char>>, b: Set<Seq<char>>, tags: Seq<Seq<char>>)
    requires
        a != Set::<Seq<char>>::empty(),
        b != Set::<Seq<char>>::empty(),
    ensures
        passes(a.union(b), tags, false) <==> passes(a, tags, false) || passes(b, tags, false),
{
    law_more_tags_show_more(a, a.union(b), tags);
    law_more_tags_show_more(b, a.union(b), tags);
    if passes(a.union(b), tags, false) {
        if a.union(b) == Set::<Seq<char>>::empty() {
            assert forall|t: Seq<char>| !#[trigger] a.contains(t) by {
                assert(!a.union(b).contains(t));
            }
            assert(a =~= Set::<Seq<char>>::empty());
        }
        let t = choose|t: Seq<char>| #[trigger] a.union(b).contains(t) && tags.contains(t);
        assert(a.contains(t) || b.contains(t));
    }
}

/// What passing means: every picked tag is on the dump, or some picked tag is;
/// with none picked everything passes.
pub proof fn law_what_passes(selected: Set<Seq<char>>, tags: Seq<Seq<char>>, t: Seq<char>)
    ensures
        passes(selected, tags, true) && selected.contains(t) ==> tags.contains(t),
        selected.contains(t) && tags.contains(t) ==> passes(selected, tags, false),
        (forall|u: Seq<char>| #[trigger] selected.contains(u) ==> tags.contains(u)) ==> passes(
            selected,
            tags,
            true,
        ),
        selected.contains(t) && (forall|u: Seq<char>| #[trigger]
            selected.contains(u) ==> !tags.contains(u)) ==> !passes(selected, tags, false),
        (forall|u: Seq<char>| !#[trigger] selected.contains(u)) ==> passes(selected, tags, false),
{
    if forall|u: Seq<char>| !#[trigger] selected.contains(u) {
        assert(selected =~= Set::<Seq<char>>::empty());
    }
}

/// A tag is counted once for each dump that carries it: one dump more that
/// carries it makes the count one more, any other dump leaves it.
pub proof fn law_counts_go_up_by_one(rows: Seq<Seq<Seq<char>>>, row: Seq<Seq<char>>, t: Seq<char>)
    ensures
        carriers(rows.push(row), t, rows.len() + 1) == carriers(rows, t, rows.len())
            + if row.contains(t) {
            1nat
        } else {
            0
        },
        carriers(seq![], t, 0) == 0,
{
    lemma_carriers_prefix(rows, row, t, rows.len());
}

proof fn lemma_carriers_prefix(
    rows: Seq<Seq<Seq<char>>>,
    row: Seq<Seq<char>>,
    t: Seq<char>,
    n: nat,
)
    requires
        n <= rows.len(),
    ensures
        carriers(rows.push(row), t, n) == carriers(rows, t, n),
    decreases n,
{
    if n > 0 {
        lemma_carriers_prefix(rows, row, t, (n - 1) as nat);
    }
}

/// The positions that a filter lets through are those of the dumps whose own tags
/// pass, in order.
pub proof fn law_filtered_positions(
    selected: &TagSet,
    tags_vec: &Vec<Vec<String>>,
    match_all: bool,
    out: Vec<usize>,
    i: usize,
)
    requires
        call_ensures(filter_indices_mode, (selected, tags_vec, match_all), out),
    ensures
        out@.contains(i) <==> i < tags_vec@.len() && passes(
            selected@,
            views(tags_vec@[i as int]@),
            match_all,
        ),
        forall|j: int, k: int| 0 <= j < k < out@.len() ==> #[trigger] out@[j] < #[trigger] out@[k],
{
    assert(tags_vec@.len() == tags_vec.len());
    let rows = rows_of(tags_vec@);
    law_visible_positions(selected@, rows, match_all);
    assert(visible(selected@, rows, match_all).contains(i) <==> out@.contains(i));
    if i < tags_vec@.len() {
        assert(rows[i as int] == views(tags_vec@[i as int]@));
    }
}

/// The count of a tag is at least one where it is on a dump, and at most the
/// number of dumps.
pub proof fn law_tag_counts(
    tags: &Vec<String>,
    tags_vec: &Vec<Vec<String>>,
    counts: Vec<usize>,
    k: int,
    i: int,
)
    requires
        call_ensures(tag_counts, (tags, tags_vec), counts),
        0 <= k < tags@.len(),
    ensures
        counts@.len() == tags@.len(),
        counts@[k] <= tags_vec@.len(),
        0 <= i < tags_vec@.len() && views(tags_vec@[i]@).contains(tags@[k]@) ==> counts@[k] >= 1,
        (forall|j: int|
            0 <= j < tags_vec@.len() ==> !views((#[trigger] tags_vec@[j])@).contains(tags@[k]@))
            ==> counts@[k] == 0,
{
    let rows = rows_of(tags_vec@);
    assert(counts@[k] == carriers(rows, tags@[k]@, tags_vec@.len()));
    lemma_carriers_bounds(rows, tags@[k]@, rows.len(), i);
    if 0 <= i < tags_vec@.len() {
        assert(rows[i] == views(tags_vec@[i]@));
    }
    if forall|j: int|
        0 <= j < tags_vec@.len() ==> !views((#[trigger] tags_vec@[j])@).contains(tags@[k]@) {
        assert forall|j: int| 0 <= j < rows.len() implies !(#[trigger] rows[j]).contains(
            tags@[k]@,
        ) by {
            assert(rows[j] == views(tags_vec@[j]@));
        }
        lemma_no_carriers(rows, tags@[k]@, rows.len());
    }
}

proof fn lemma_carriers_bounds(rows: Seq<Seq<Seq<char>>>, t: Seq<char>, n: nat, i: int)
    requires
        n <= rows.len(),
    ensures
        carriers(rows, t, n) <= n,
        0 <= i < n && rows[i].contains(t) ==> carriers(rows, t, n) >= 1,
    decreases n,
{
    if n > 0 {
        lemma_carriers_bounds(rows, t, (n - 1) as nat, i);
    }
}

proof fn lemma_no_carriers(rows: Seq<Seq<Seq<char>>>, t: Seq<char>, n: nat)
    requires
        n <= rows.len(),
        forall|j: int| 0 <= j < rows.len() ==> !(#[trigger] rows[j]).contains(t),
    ensures
        carriers(rows, t, n) == 0,
    decreases n,
{
    if n > 0 {
        lemma_no_carriers(rows, t, (n - 1) as nat);
        assert(!rows[n - 1].contains(t));
    }
}

} // verus!
