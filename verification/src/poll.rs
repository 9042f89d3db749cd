//! Finding out what changed in the dumps directory by looking at it again and
//! again.

use vstd::prelude::*;

verus! {

/// The files of a directory with the times of their last changes. No path
/// occurs twice.
#[derive(Debug)]
pub struct Snapshot {
    files: Vec<(String, i128)>,
}

/// What happened to a file.
#[derive(Debug, Clone, Copy, PartialEq, Eq, Structural)]
pub enum ChangeKind {
    Created,
    Modified,
    Removed,
}

/// A file to which something happened.
#[derive(Debug)]
pub struct Change {
    pub path: String,
    pub kind: ChangeKind,
}

pub open spec fn change_views(changes: Seq<Change>) -> Seq<(Seq<char>, ChangeKind)> {
    changes.map_values(|c: Change| (c.path@, c.kind))
}

/// What happened to the file `path` between two looks at the directory.
pub open spec fn change_of(
    last: Map<Seq<char>, int>,
    current: Map<Seq<char>, int>,
    path: Seq<char>,
) -> Option<ChangeKind> {
    if current.contains_key(path) {
        if !last.contains_key(path) {
            Some(ChangeKind::Created)
        } else if last[path] != current[path] {
            Some(ChangeKind::Modified)
        } else {
            None
        }
    } else if last.contains_key(path) {
        Some(ChangeKind::Removed)
    } else {
        None
    }
}

/// `changes` lists what happened between two looks at the directory: each file
/// to which something happened once, those that are gone at the end.
pub open spec fn is_diff(
    changes: Seq<(Seq<char>, ChangeKind)>,
    last: Map<Seq<char>, int>,
    current: Map<Seq<char>, int>,
) -> bool {
    &&& forall|path: Seq<char>, kind: ChangeKind| #[trigger]
        changes.contains((path, kind)) <==> change_of(last, current, path) == Some(kind)
    &&& forall|i: int, j: int|
        0 <= i < j < changes.len() ==> (#[trigger] changes[i]).0 != (#[trigger] changes[j]).0
    &&& forall|i: int, j: int|
        0 <= i < j < changes.len() && (#[trigger] changes[i]).1 == ChangeKind::Removed ==> (
        #[trigger] changes[j]).1 == ChangeKind::Removed
}

pub open spec fn files_view(files: Seq<(String, i128)>) -> Map<Seq<char>, int>
    decreases files.len(),
{
    if files.len() == 0 {
        Map::empty()
    } else {
        files_view(files.drop_last()).insert(files.last().0@, files.last().1 as int)
    }
}

pub open spec fn each_path_once(files: Seq<(String, i128)>) -> bool {
    forall|i: int, j: int|
        0 <= i < j < files.len() ==> (#[trigger] files[i]).0@ != (#[trigger] files[j]).0@
}

impl View for Snapshot {
    type V = Map<Seq<char>, int>;

    closed spec fn view(&self) -> Map<Seq<char>, int> {
        files_view(self.files@)
    }
}

proof fn lemma_files_view(files: Seq<(String, i128)>)
    requires
        each_path_once(files),
    ensures
        forall|i: int|
            0 <= i < files.len() ==> files_view(files).contains_key((#[trigger] files[i]).0@)
                && files_view(files)[files[i].0@] == files[i].1,
        forall|p: Seq<char>| #[trigger]
            files_view(files).contains_key(p) ==> exists|i: int|
                0 <= i < files.len() && (#[trigger] files[i]).0@ == p,
    decreases files.len(),
{
    if files.len() > 0 {
        let shorter = files.drop_last();
        assert(each_path_once(shorter)) by {
            assert forall|i: int, j: int| 0 <= i < j < shorter.len() implies (
            #[trigger] shorter[i]).0@ != (#[trigger] shorter[j]).0@ by {
                assert(files[i].0@ != files[j].0@);
            }
        }
        lemma_files_view(shorter);
        assert forall|i: int| 0 <= i < files.len() implies files_view(files).contains_key(
            (#[trigger] files[i]).0@,
        ) && files_view(files)[files[i].0@] == files[i].1 by {
            if i < shorter.len() {
                assert(shorter[i] == files[i]);
                assert(files[i].0@ != files[files.len() - 1].0@);
            }
        }
        assert forall|p: Seq<char>| #[trigger] files_view(files).contains_key(p) implies exists|
            i: int,
        |
            0 <= i < files.len() && (#[trigger] files[i]).0@ == p by {
            if p == files.last().0@ {
                assert(files[files.len() - 1].0@ == p);
            } else {
                assert(files_view(shorter).contains_key(p));
                let i = choose|i: int| 0 <= i < shorter.len() && (#[trigger] shorter[i]).0@ == p;
                assert(files[i].0@ == p);
            }
        }
    }
}

impl Snapshot {
    #[verifier::type_invariant]
    spec fn inv(&self) -> bool {
        each_path_once(self.files@)
    }

    pub fn new() -> (snapshot: Snapshot)
        ensures
            snapshot@ == Map::<Seq<char>, int>::empty(),
    {
        Snapshot { files: Vec::new() }
    }

    /// When the file `path` was last changed; `None` where it is not there.
    pub fn get(&self, path: &String) -> (time: Option<i128>)
        ensures
            match time {
                Some(t) => self@.contains_key(path@) && self@[path@] == t,
                None => !self@.contains_key(path@),
            },
    {
        proof {
            use_type_invariant(self);
            lemma_files_view(self.files@);
        }
        let mut i: usize = 0;
        while i < self.files.len()
            invariant
                i <= self.files@.len(),
                self@ == files_view(self.files@),
                forall|k: int|
                    0 <= k < self.files@.len() ==> self@.contains_key((#[trigger] self.files@[k]).0@)
                        && self@[self.files@[k].0@] == self.files@[k].1,
                forall|k: int| 0 <= k < i ==> (#[trigger] self.files@[k]).0@ != path@,
            decreases self.files@.len() - i,
        {
            if self.files[i].0 == *path {
                return Some(self.files[i].1);
            }
            i = i + 1;
        }
        None
    }

    /// Notes a file and its time. What was noted of the same path is forgotten.
    pub fn insert(&mut self, path: String, time: i128)
        ensures
            final(self)@ == old(self)@.insert(path@, time as int),
    {
        proof {
            use_type_invariant(&*self);
            lemma_files_view(self.files@);
        }
        let mut kept: Vec<(String, i128)> = Vec::new();
        let mut i: usize = 0;
        while i < self.files.len()
            invariant
                i <= self.files@.len(),
                self@ == old(self)@,
                self@ == files_view(self.files@),
                each_path_once(self.files@),
                each_path_once(kept@),
                forall|k: int| 0 <= k < kept@.len() ==> (#[trigger] kept@[k]).0@ != path@,
                forall|k: int|
                    0 <= k < kept@.len() ==> exists|j: int|
                        0 <= j < i && (#[trigger] self.files@[j]).0@ == (#[trigger] kept@[k]).0@,
                files_view(kept@) == files_view(self.files@.take(i as int)).remove(path@),
            decreases self.files@.len() - i,
        {
            let ghost before = kept@;
            assert(self.files@.take(i + 1).drop_last() =~= self.files@.take(i as int));
            if self.files[i].0 != path {
                kept.push((self.files[i].0.clone(), self.files[i].1));
                assert(kept@.drop_last() =~= before);
            }
            i = i + 1;
            assert(files_view(kept@) =~= files_view(self.files@.take(i as int)).remove(path@));
        }
        assert(self.files@.take(i as int) =~= self.files@);
        let ghost before = kept@;
        kept.push((path, time));
        assert(kept@.drop_last() =~= before);
        assert(files_view(kept@) =~= old(self)@.insert(path@, time as int));
        self.files = kept;
    }
}

/// The files of `files` that are new or changed since `last`.
spec fn news(
    files: Seq<(String, i128)>,
    last: Map<Seq<char>, int>,
) -> Seq<(Seq<char>, ChangeKind)>
    decreases files.len(),
{
    if files.len() == 0 {
        seq![]
    } else {
        let before = news(files.drop_last(), last);
        let (path, time) = (files.last().0@, files.last().1 as int);
        if !last.contains_key(path) {
            before.push((path, ChangeKind::Created))
        } else if last[path] != time {
            before.push((path, ChangeKind::Modified))
        } else {
            before
        }
    }
}

/// The files of `files` that are gone.
spec fn losses(
    files: Seq<(String, i128)>,
    current: Map<Seq<char>, int>,
) -> Seq<(Seq<char>, ChangeKind)>
    decreases files.len(),
{
    if files.len() == 0 {
        seq![]
    } else {
        let before = losses(files.drop_last(), current);
        let path = files.last().0@;
        if !current.contains_key(path) {
            before.push((path, ChangeKind::Removed))
        } else {
            before
        }
    }
}

spec fn each_once(changes: Seq<(Seq<char>, ChangeKind)>) -> bool {
    forall|i: int, j: int|
        0 <= i < j < changes.len() ==> (#[trigger] changes[i]).0 != (#[trigger] changes[j]).0
}

/// The last file of `files` is not among the others.
proof fn lemma_last_is_new(files: Seq<(String, i128)>)
    requires
        each_path_once(files),
        files.len() > 0,
    ensures
        each_path_once(files.drop_last()),
        !files_view(files.drop_last()).contains_key(files.last().0@),
{
    let shorter = files.drop_last();
    assert forall|i: int, j: int| 0 <= i < j < shorter.len() implies (#[trigger] shorter[i]).0@
        != (#[trigger] shorter[j]).0@ by {
        assert(files[i].0@ != files[j].0@);
    }
    lemma_files_view(shorter);
    let p = files.last().0@;
    if files_view(shorter).contains_key(p) {
        let i = choose|i: int| 0 <= i < shorter.len() && (#[trigger] shorter[i]).0@ == p;
        assert(files[i].0@ != files[files.len() - 1].0@);
    }
}

proof fn lemma_push_contains(
    list: Seq<(Seq<char>, ChangeKind)>,
    x: (Seq<char>, ChangeKind),
    y: (Seq<char>, ChangeKind),
)
    ensures
        list.push(x).contains(y) <==> list.contains(y) || x == y,
{
    if list.contains(y) {
        let k = choose|k: int| 0 <= k < list.len() && list[k] == y;
        assert(list.push(x)[k] == y);
    }
    assert(list.push(x)[list.len() as int] == x);
    if list.push(x).contains(y) {
        let k = choose|k: int| 0 <= k < list.push(x).len() && list.push(x)[k] == y;
        if k < list.len() {
            assert(list[k] == y);
        }
    }
}

proof fn lemma_each_once_push(list: Seq<(Seq<char>, ChangeKind)>, path: Seq<char>, kind: ChangeKind)
    requires
        each_once(list),
        forall|k: ChangeKind| !#[trigger] list.contains((path, k)),
    ensures
        each_once(list.push((path, kind))),
{
    let longer = list.push((path, kind));
    assert forall|i: int, j: int| 0 <= i < j < longer.len() implies (#[trigger] longer[i]).0 != (
    #[trigger] longer[j]).0 by {
        if j < list.len() {
            assert(list[i].0 != list[j].0);
        } else {
            assert(list.contains(list[i]));
            assert(!list.contains((path, list[i].1)));
        }
    }
}

proof fn lemma_news(files: Seq<(String, i128)>, last: Map<Seq<char>, int>)
    requires
        each_path_once(files),
    ensures
        each_once(news(files, last)),
        forall|path: Seq<char>, kind: ChangeKind| #[trigger]
            news(files, last).contains((path, kind)) <==> kind != ChangeKind::Removed && change_of(
                last,
                files_view(files),
                path,
            ) == Some(kind),
    decreases files.len(),
{
    if files.len() > 0 {
        let shorter = files.drop_last();
        let before = news(shorter, last);
        let (p, t) = (files.last().0@, files.last().1 as int);
        lemma_last_is_new(files);
        lemma_news(shorter, last);
        assert forall|path: Seq<char>, kind: ChangeKind| #[trigger]
            news(files, last).contains((path, kind)) <==> kind != ChangeKind::Removed && change_of(
            last,
            files_view(files),
            path,
        ) == Some(kind) by {
            lemma_push_contains(before, (p, ChangeKind::Created), (path, kind));
            lemma_push_contains(before, (p, ChangeKind::Modified), (path, kind));
            assert(before.contains((path, kind)) ==> path != p);
        }
        lemma_each_once_push(before, p, ChangeKind::Created);
        lemma_each_once_push(before, p, ChangeKind::Modified);
    }
}

proof fn lemma_losses(files: Seq<(String, i128)>, current: Map<Seq<char>, int>)
    requires
        each_path_once(files),
    ensures
        each_once(losses(files, current)),
        forall|path: Seq<char>, kind: ChangeKind| #[trigger]
            losses(files, current).contains((path, kind)) <==> kind == ChangeKind::Removed
                && change_of(files_view(files), current, path) == Some(kind),
    decreases files.len(),
{
    if files.len() > 0 {
        let shorter = files.drop_last();
        let before = losses(shorter, current);
        let p = files.last().0@;
        lemma_last_is_new(files);
        lemma_losses(shorter, current);
        assert forall|path: Seq<char>, kind: ChangeKind| #[trigger]
            losses(files, current).contains((path, kind)) <==> kind == ChangeKind::Removed
            && change_of(files_view(files), current, path) == Some(kind) by {
            lemma_push_contains(before, (p, ChangeKind::Removed), (path, kind));
        }
        lemma_each_once_push(before, p, ChangeKind::Removed);
    }
}

/// The two lists one after the other are the list of changes.
proof fn lemma_diff(last: Seq<(String, i128)>, current: Seq<(String, i128)>)
    requires
        each_path_once(last),
        each_path_once(current),
    ensures
        is_diff(
            news(current, files_view(last)) + losses(last, files_view(current)),
            files_view(last),
            files_view(current),
        ),
{
    let a = news(current, files_view(last));
    let b = losses(last, files_view(current));
    lemma_news(current, files_view(last));
    lemma_losses(last, files_view(current));
    assert forall|i: int| 0 <= i < a.len() implies (#[trigger] a[i]).1 != ChangeKind::Removed
        && change_of(files_view(last), files_view(current), a[i].0) == Some(a[i].1) by {
        assert(a.contains((a[i].0, a[i].1)));
    }
    assert forall|i: int| 0 <= i < b.len() implies (#[trigger] b[i]).1 == ChangeKind::Removed
        && change_of(files_view(last), files_view(current), b[i].0) == Some(b[i].1) by {
        assert(b.contains((b[i].0, b[i].1)));
    }
    assert forall|path: Seq<char>, kind: ChangeKind| #[trigger]
        (a + b).contains((path, kind)) <==> change_of(files_view(last), files_view(current), path)
        == Some(kind) by {
        let x = (path, kind);
        if (a + b).contains(x) {
            let k = choose|k: int| 0 <= k < (a + b).len() && (a + b)[k] == x;
            if k < a.len() {
                assert(a[k] == x);
            } else {
                assert(b[k - a.len()] == x);
            }
        }
        if change_of(files_view(last), files_view(current), path) == Some(kind) {
            if kind == ChangeKind::Removed {
                assert(b.contains(x));
                let k = choose|k: int| 0 <= k < b.len() && b[k] == x;
                assert((a + b)[a.len() + k] == x);
            } else {
                assert(a.contains(x));
                let k = choose|k: int| 0 <= k < a.len() && a[k] == x;
                assert((a + b)[k] == x);
            }
        }
    }
    assert forall|i: int, j: int| 0 <= i < j < (a + b).len() implies (#[trigger] (a + b)[i]).0 != (
    #[trigger] (a + b)[j]).0 by {
        if j < a.len() {
            assert(a[i].0 != a[j].0);
        } else if i >= a.len() {
            assert(b[i - a.len()].0 != b[j - a.len()].0);
        } else {
            assert((a + b)[i] == a[i] && (a + b)[j] == b[j - a.len()]);
        }
    }
    assert forall|i: int, j: int|
        0 <= i < j < (a + b).len() && (#[trigger] (a + b)[i]).1 == ChangeKind::Removed implies (
    #[trigger] (a + b)[j]).1 == ChangeKind::Removed by {
        if i < a.len() {
            assert((a + b)[i] == a[i]);
        } else {
            assert((a + b)[j] == b[j - a.len()]);
        }
    }
}

/// What happened between two looks at the directory.
pub fn changes_between(last: &Snapshot, current: &Snapshot) -> (changes: Vec<Change>)
    ensures
        is_diff(change_views(changes@), last@, current@),
{
    proof {
        use_type_invariant(last);
        use_type_invariant(current);
        lemma_files_view(last.files@);
        lemma_files_view(current.files@);
        lemma_diff(last.files@, current.files@);
    }
    let mut changes: Vec<Change> = Vec::new();
    let mut i: usize = 0;
    assert(current.files@.take(0) =~= seq![]);
    assert(change_views(changes@) =~= news(current.files@.take(0), last@));
    while i < current.files.len()
        invariant
            i <= current.files@.len(),
            change_views(changes@) == news(current.files@.take(i as int), last@),
        decreases current.files@.len() - i,
    {
        let ghost before = change_views(changes@);
        let ghost path = current.files@[i as int].0@;
        assert(current.files@.take(i + 1).drop_last() =~= current.files@.take(i as int));
        match last.get(&current.files[i].0) {
            None => {
                changes.push(
                    Change { path: current.files[i].0.clone(), kind: ChangeKind::Created },
                );
                assert(change_views(changes@) =~= before.push((path, ChangeKind::Created)));
            },
            Some(t) => if t != current.files[i].1 {
                changes.push(
                    Change { path: current.files[i].0.clone(), kind: ChangeKind::Modified },
                );
                assert(change_views(changes@) =~= before.push((path, ChangeKind::Modified)));
            },
        }
        i = i + 1;
    }
    assert(current.files@.take(i as int) =~= current.files@);
    let mut j: usize = 0;
    assert(last.files@.take(0) =~= seq![]);
    assert(change_views(changes@) =~= news(current.files@, last@) + losses(
        last.files@.take(0),
        current@,
    ));
    while j < last.files.len()
        invariant
            j <= last.files@.len(),
            change_views(changes@) == news(current.files@, last@) + losses(
                last.files@.take(j as int),
                current@,
            ),
        decreases last.files@.len() - j,
    {
        let ghost before = change_views(changes@);
        let ghost path = last.files@[j as int].0@;
        assert(last.files@.take(j + 1).drop_last() =~= last.files@.take(j as int));
        if current.get(&last.files[j].0).is_none() {
            changes.push(
                Change { path: last.files[j].0.clone(), kind: ChangeKind::Removed },
            );
            assert(change_views(changes@) =~= before.push((path, ChangeKind::Removed)));
        }
        j = j + 1;
        assert(change_views(changes@) =~= news(current.files@, last@) + losses(
            last.files@.take(j as int),
            current@,
        ));
    }
    assert(last.files@.take(j as int) =~= last.files@);
    changes
}

/// Where nothing changed between two looks there is nothing to report.
pub proof fn law_no_change_no_report(
    changes: Seq<(Seq<char>, ChangeKind)>,
    files: Map<Seq<char>, int>,
)
    requires
        is_diff(changes, files, files),
    ensures
        changes.len() == 0,
{
    if changes.len() > 0 {
        assert(changes.contains((changes[0].0, changes[0].1)));
    }
}

/// The files reported as created or gone make up for the difference: the files
/// there now are those there before, with the created ones and without the ones
/// that are gone.
pub proof fn law_report_accounts_for_files(
    changes: Seq<(Seq<char>, ChangeKind)>,
    last: Map<Seq<char>, int>,
    current: Map<Seq<char>, int>,
    path: Seq<char>,
)
    requires
        is_diff(changes, last, current),
    ensures
        current.contains_key(path) <==> (last.contains_key(path) && !changes.contains(
            (path, ChangeKind::Removed),
        )) || changes.contains((path, ChangeKind::Created)),
{
}

/// A file is reported as changed exactly if it was there, still is, and has
/// another time; as created if it is there and was not; as gone if it was there
/// and is not.
pub proof fn law_what_is_reported(
    changes: Seq<(Seq<char>, ChangeKind)>,
    last: Map<Seq<char>, int>,
    current: Map<Seq<char>, int>,
    path: Seq<char>,
)
    requires
        is_diff(changes, last, current),
    ensures
        changes.contains((path, ChangeKind::Modified)) <==> last.contains_key(path)
            && current.contains_key(path) && last[path] != current[path],
        changes.contains((path, ChangeKind::Created)) <==> !last.contains_key(path)
            && current.contains_key(path),
        changes.contains((path, ChangeKind::Removed)) <==> last.contains_key(path)
            && !current.contains_key(path),
{
}

/// No file is reported twice, and what is gone is reported last.
pub proof fn law_each_file_is_reported_once(
    changes: Seq<(Seq<char>, ChangeKind)>,
    last: Map<Seq<char>, int>,
    current: Map<Seq<char>, int>,
    i: int,
    j: int,
)
    requires
        is_diff(changes, last, current),
        0 <= i < j < changes.len(),
    ensures
        changes[i].0 != changes[j].0,
        changes[j].1 != ChangeKind::Removed ==> changes[i].1 != ChangeKind::Removed,
{
}

} // verus!
