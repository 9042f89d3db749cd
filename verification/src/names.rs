//! File names of dumps and their sidecars, and the directories they live in.

use vstd::prelude::*;
use crate::text::{chars_of, ends_with, has_suffix, join2, string_of, text_view, without_last};

verus! {

/// The file name of the dump `id`.
pub open spec fn dump_name(id: Seq<char>) -> Seq<char> {
    id + ".json"@
}

/// The file name of the sidecar of the dump `id`.
pub open spec fn sidecar_name(id: Seq<char>) -> Seq<char> {
    id + ".metadata.json"@
}

/// The name under which a file is written before it gets the name `name`.
pub open spec fn temp_name(name: Seq<char>) -> Seq<char> {
    name + ".tmp"@
}

/// The sidecar that belongs to a file: only a `.json` file can have one.
pub open spec fn sidecar_of(name: Seq<char>) -> Option<Seq<char>> {
    if has_suffix(name, ".json"@) {
        Some(sidecar_name(without_last(name, 5)))
    } else {
        None
    }
}

/// The file is a sidecar, going by its name. A name that is no valid text is
/// not taken for one.
pub open spec fn names_sidecar(name: Option<Seq<char>>) -> bool {
    match name {
        Some(n) => has_suffix(n, ".metadata.json"@),
        None => false,
    }
}

/// The file is listed as a dump when the directory is scanned: `.json` files
/// other than sidecars, and files whose name is no valid text.
pub open spec fn names_dump(name: Option<Seq<char>>) -> bool {
    match name {
        Some(n) => has_suffix(n, ".json"@) && !has_suffix(n, ".metadata.json"@),
        None => true,
    }
}

/// What comes before the last `c` in `s`; nothing where there is no `c`.
pub open spec fn before_last(s: Seq<char>, c: char) -> Seq<char>
    decreases s.len(),
{
    if s.len() == 0 {
        seq![]
    } else if s.last() == c {
        s.drop_last()
    } else {
        before_last(s.drop_last(), c)
    }
}

/// The title in a file name of the form `title_id.json`.
pub open spec fn title_in_name(name: Seq<char>) -> Seq<char> {
    if has_suffix(name, ".json"@) {
        before_last(without_last(name, 5), '_')
    } else {
        before_last(name, '_')
    }
}

pub fn dump_file_name(id: &str) -> (name: String)
    ensures
        name@ == dump_name(id@),
{
    join2(id, ".json")
}

pub fn sidecar_file_name(id: &str) -> (name: String)
    ensures
        name@ == sidecar_name(id@),
{
    join2(id, ".metadata.json")
}

pub fn temp_file_name(name: &str) -> (temp: String)
    ensures
        temp@ == temp_name(name@),
{
    join2(name, ".tmp")
}

proof fn lemma_suffix_lengths()
    ensures
        ".json"@.len() == 5,
        ".metadata.json"@.len() == 14,
        ".tmp"@.len() == 4,
        ".metadata.json"@.skip(9) == ".json"@,
        ".metadata.json"@.take(9) == ".metadata"@,
        ".tmp"@.last() == 'p',
        ".json"@.last() == 'n',
{
    reveal_strlit(".json");
    reveal_strlit(".metadata.json");
    reveal_strlit(".metadata");
    reveal_strlit(".tmp");
    assert(".metadata.json"@.skip(9) =~= ".json"@);
    assert(".metadata.json"@.take(9) =~= ".metadata"@);
}

/// The sidecar of the file `name`, if it can have one.
pub fn sidecar_for_dump(name: &str) -> (sidecar: Option<String>)
    ensures
        text_view(sidecar) == sidecar_of(name@),
{
    if ends_with(name, ".json") {
        proof {
            lemma_suffix_lengths();
        }
        let chars = chars_of(name);
        let id = string_of(&chars, 0, chars.len() - 5);
        assert(id@ =~= without_last(name@, 5));
        Some(sidecar_file_name(&id))
    } else {
        None
    }
}

/// Whether a file is a sidecar.
pub fn is_sidecar(name: &Option<String>) -> (yes: bool)
    ensures
        yes == names_sidecar(text_view(*name)),
{
    match name {
        Some(n) => ends_with(n, ".metadata.json"),
        None => false,
    }
}

/// Whether a scan lists a file as a dump.
pub fn is_dump(name: &Option<String>) -> (yes: bool)
    ensures
        yes == names_dump(text_view(*name)),
{
    match name {
        Some(n) => ends_with(n, ".json") && !ends_with(n, ".metadata.json"),
        None => true,
    }
}

/// The title in a file name of the form `title_id.json`.
pub fn title_from_name(name: &str) -> (title: String)
    ensures
        title@ == title_in_name(name@),
{
    proof {
        lemma_suffix_lengths();
    }
    let chars = chars_of(name);
    let end: usize = if ends_with(name, ".json") {
        chars.len() - 5
    } else {
        chars.len()
    };
    let ghost base = name@.take(end as int);
    proof {
        assert(name@.take(name@.len() as int) == name@);
    }
    let mut i: usize = end;
    assert(base.take(end as int) == base);
    while i > 0
        invariant
            chars@ == name@,
            i <= end <= chars@.len(),
            base == name@.take(end as int),
            title_in_name(name@) == before_last(base.take(i as int), '_'),
        decreases i,
    {
        assert(base.take(i as int).drop_last() =~= base.take(i - 1));
        assert(base.take(i as int).last() == chars@[i - 1]);
        if chars[i - 1] == '_' {
            let title = string_of(&chars, 0, i - 1);
            assert(title@ =~= base.take(i - 1));
            return title;
        }
        i = i - 1;
    }
    let empty = String::new();
    assert(empty@ =~= before_last(base.take(0), '_'));
    empty
}

// ---- directories ----

/// `name` below the directory `base`.
pub open spec fn joined(base: Seq<char>, name: Seq<char>) -> Seq<char> {
    if base.len() == 0 || base.last() == '/' {
        base + name
    } else {
        base.push('/') + name
    }
}

/// The directory for the program's data: below `XDG_DATA_HOME` where that is
/// set and not empty, else below `HOME`.
pub open spec fn data_dir_of(xdg: Option<Seq<char>>, home: Option<Seq<char>>) -> Option<Seq<char>> {
    match xdg {
        Some(x) if x.len() > 0 => Some(joined(x, "rubbish"@)),
        _ => match home {
            Some(h) => Some(joined(joined(joined(h, ".local"@), "share"@), "rubbish"@)),
            None => None,
        },
    }
}

/// The directory for dumps; `./dumps` where there is no data directory.
pub open spec fn dumps_dir_of(xdg: Option<Seq<char>>, home: Option<Seq<char>>) -> Seq<char> {
    match data_dir_of(xdg, home) {
        Some(d) => joined(d, "dumps"@),
        None => "./dumps"@,
    }
}

/// The log file; `./info.log` where there is no data directory.
pub open spec fn log_file_of(xdg: Option<Seq<char>>, home: Option<Seq<char>>) -> Seq<char> {
    match data_dir_of(xdg, home) {
        Some(d) => joined(d, "info.log"@),
        None => "./info.log"@,
    }
}

/// A relative name below a directory.
pub fn join_path(base: &str, name: &str) -> (path: String)
    ensures
        path@ == joined(base@, name@),
{
    let chars = chars_of(base);
    let mut path = String::new();
    path.append(base);
    if chars.len() > 0 && chars[chars.len() - 1] != '/' {
        path.push('/');
    }
    path.append(name);
    path
}

/// Where the program keeps its data, going by two environment variables.
pub fn data_dir(xdg: &Option<String>, home: &Option<String>) -> (dir: Option<String>)
    ensures
        text_view(dir) == data_dir_of(text_view(*xdg), text_view(*home)),
{
    if let Some(x) = xdg {
        if !x.as_str().is_empty() {
            return Some(join_path(x, "rubbish"));
        }
    }
    match home {
        Some(h) => Some(join_path(&join_path(&join_path(h, ".local"), "share"), "rubbish")),
        None => None,
    }
}

/// Where dumps are stored, going by two environment variables.
pub fn dumps_dir(xdg: &Option<String>, home: &Option<String>) -> (dir: String)
    ensures
        dir@ == dumps_dir_of(text_view(*xdg), text_view(*home)),
{
    match data_dir(xdg, home) {
        Some(d) => join_path(&d, "dumps"),
        None => "./dumps".to_string(),
    }
}

/// The directory that dumps are looked for in, given whether the chosen one is
/// there or could be made: `./dumps` where it could not.
pub fn dir_to_use(chosen: String, made: bool) -> (dir: String)
    ensures
        dir@ == if made {
            chosen@
        } else {
            "./dumps"@
        },
{
    if made {
        chosen
    } else {
        "./dumps".to_string()
    }
}

/// The log file, going by two environment variables.
pub fn log_file(xdg: &Option<String>, home: &Option<String>) -> (file: String)
    ensures
        file@ == log_file_of(text_view(*xdg), text_view(*home)),
{
    match data_dir(xdg, home) {
        Some(d) => join_path(&d, "info.log"),
        None => "./info.log".to_string(),
    }
}

// ---- paths ----
//
// A path is a sequence of bytes. Two spellings of it are the same path if they
// have the same components.

/// The bytes of a path between slashes.
pub open spec fn between_slashes(path: Seq<u8>) -> Seq<Seq<u8>>
    decreases path.len(),
{
    if path.len() == 0 {
        seq![seq![]]
    } else {
        let before = between_slashes(path.drop_last());
        if path.last() == 47 {
            before.push(seq![])
        } else {
            before.drop_last().push(before.last().push(path.last()))
        }
    }
}

/// The piece is a component: not empty, and a single dot only at the start.
pub open spec fn is_component(piece: Seq<u8>, first: bool) -> bool {
    piece.len() > 0 && (first || piece != seq![46u8])
}

/// The components among the pieces of a path.
pub open spec fn components_among(pieces: Seq<Seq<u8>>) -> Seq<Seq<u8>>
    decreases pieces.len(),
{
    if pieces.len() == 0 {
        seq![]
    } else {
        let before = components_among(pieces.drop_last());
        if is_component(pieces.last(), pieces.len() == 1) {
            before.push(pieces.last())
        } else {
            before
        }
    }
}

/// The components of a path. A slash at the start is one of them; any other
/// slash only keeps them apart, however often it stands there, and a single dot
/// counts at the start only.
pub open spec fn components(path: Seq<u8>) -> Seq<Seq<u8>> {
    let root: Seq<Seq<u8>> = if path.len() > 0 && path[0] == 47 {
        seq![seq![47u8]]
    } else {
        seq![]
    };
    root + components_among(between_slashes(path))
}

/// The two spellings are the same path.
pub open spec fn is_same_path(a: Seq<u8>, b: Seq<u8>) -> bool {
    components(a) == components(b)
}

/// `path` is `dir` or lies below it.
pub open spec fn within(path: Seq<u8>, dir: Seq<u8>) -> bool {
    &&& components(dir).len() <= components(path).len()
    &&& components(path).take(components(dir).len() as int) == components(dir)
}

pub open spec fn byte_views(list: Seq<Vec<u8>>) -> Seq<Seq<u8>> {
    list.map_values(|v: Vec<u8>| v@)
}

/// Appends `path[from..to]` to the components, if it is one.
fn push_component(list: &mut Vec<Vec<u8>>, path: &Vec<u8>, from: usize, to: usize)
    requires
        from <= to <= path@.len(),
    ensures
        byte_views(final(list)@) == if is_component(
            path@.subrange(from as int, to as int),
            from == 0,
        ) {
            byte_views(old(list)@).push(path@.subrange(from as int, to as int))
        } else {
            byte_views(old(list)@)
        },
{
    let ghost piece = path@.subrange(from as int, to as int);
    if from == to {
        return ;
    }
    if from > 0 && to - from == 1 && path[from] == 46 {
        assert(piece =~= seq![46u8]);
        return ;
    }
    proof {
        if piece == seq![46u8] {
            assert(piece.len() == 1 && piece[0] == 46);
        }
    }
    let mut copy: Vec<u8> = Vec::new();
    let mut i: usize = from;
    while i < to
        invariant
            from <= i <= to <= path@.len(),
            copy@ == path@.subrange(from as int, i as int),
        decreases to - i,
    {
        copy.push(path[i]);
        i = i + 1;
        assert(path@.subrange(from as int, i as int) =~= path@.subrange(from as int, i - 1).push(
            path@[i - 1],
        ));
    }
    list.push(copy);
    assert(byte_views(list@) =~= byte_views(old(list)@).push(piece));
}

/// The components of a path.
pub fn path_components(path: &Vec<u8>) -> (list: Vec<Vec<u8>>)
    ensures
        byte_views(list@) == components(path@),
{
    let ghost s = path@;
    let mut list: Vec<Vec<u8>> = Vec::new();
    if path.len() > 0 && path[0] == 47 {
        let mut slash: Vec<u8> = Vec::new();
        slash.push(47);
        assert(slash@ =~= seq![47u8]);
        list.push(slash);
    }
    let ghost root = byte_views(list@);
    let mut start: usize = 0;
    let mut i: usize = 0;
    proof {
        if s.len() > 0 && s[0] == 47 {
            assert(root =~= seq![seq![47u8]]);
        } else {
            assert(root =~= seq![]);
        }
        assert(s.take(0) =~= seq![]);
        assert(s.subrange(0, 0) =~= seq![]);
        assert(between_slashes(s.take(0)).drop_last() =~= seq![]);
        assert(root =~= root + components_among(between_slashes(s.take(0)).drop_last()));
    }
    while i < path.len()
        invariant
            path@ == s,
            start <= i <= path@.len(),
            between_slashes(s.take(i as int)).len() > 0,
            between_slashes(s.take(i as int)).len() == 1 <==> start == 0,
            between_slashes(s.take(i as int)).last() == s.subrange(start as int, i as int),
            byte_views(list@) == root + components_among(
                between_slashes(s.take(i as int)).drop_last(),
            ),
        decreases path@.len() - i,
    {
        let ghost before = between_slashes(s.take(i as int));
        let ghost known = byte_views(list@);
        proof {
            assert(s.take(i + 1).drop_last() =~= s.take(i as int));
            assert(s.take(i + 1).last() == s[i as int]);
        }
        if path[i] == 47 {
            push_component(&mut list, path, start, i);
            proof {
                assert(between_slashes(s.take(i + 1)).drop_last() =~= before);
                assert(s.subrange(i + 1, i + 1) =~= seq![]);
                assert(byte_views(list@) =~= root + components_among(before));
            }
            start = i + 1;
        } else {
            proof {
                assert(between_slashes(s.take(i + 1)).drop_last() =~= before.drop_last());
                assert(s.subrange(start as int, i + 1) =~= s.subrange(start as int, i as int).push(
                    s[i as int],
                ));
            }
        }
        i = i + 1;
    }
    assert(s.take(i as int) =~= s);
    push_component(&mut list, path, start, i);
    assert(byte_views(list@) =~= components(path@));
    list
}

fn same_bytes(a: &Vec<u8>, b: &Vec<u8>) -> (yes: bool)
    ensures
        yes == (a@ == b@),
{
    if a.len() != b.len() {
        return false;
    }
    let mut i: usize = 0;
    while i < a.len()
        invariant
            a@.len() == b@.len(),
            i <= a@.len(),
            forall|k: int| 0 <= k < i ==> a@[k] == b@[k],
        decreases a@.len() - i,
    {
        if a[i] != b[i] {
            return false;
        }
        i = i + 1;
    }
    assert(a@ =~= b@);
    true
}

/// Whether `list` begins with the components of `start`.
fn begins_with(list: &Vec<Vec<u8>>, start: &Vec<Vec<u8>>) -> (yes: bool)
    ensures
        yes == (start@.len() <= list@.len() && byte_views(list@).take(start@.len() as int)
            == byte_views(start@)),
{
    if start.len() > list.len() {
        return false;
    }
    let mut i: usize = 0;
    while i < start.len()
        invariant
            start@.len() <= list@.len(),
            i <= start@.len(),
            forall|k: int| 0 <= k < i ==> (#[trigger] list@[k])@ == start@[k]@,
        decreases start@.len() - i,
    {
        if !same_bytes(&list[i], &start[i]) {
            assert(byte_views(list@).take(start@.len() as int)[i as int] != byte_views(
                start@,
            )[i as int]);
            return false;
        }
        i = i + 1;
    }
    assert(byte_views(list@).take(start@.len() as int) =~= byte_views(start@));
    true
}

/// Whether two spellings are the same path.
pub fn same_path(a: &Vec<u8>, b: &Vec<u8>) -> (yes: bool)
    ensures
        yes == is_same_path(a@, b@),
{
    let x = path_components(a);
    let y = path_components(b);
    let yes = x.len() == y.len() && begins_with(&x, &y);
    proof {
        assert(byte_views(x@).len() == x@.len() && byte_views(y@).len() == y@.len());
        assert(byte_views(x@).take(x@.len() as int) =~= byte_views(x@));
    }
    yes
}

/// Whether `path` lies in the directory `dir`.
pub fn path_within(path: &Vec<u8>, dir: &Vec<u8>) -> (yes: bool)
    ensures
        yes == within(path@, dir@),
{
    let x = path_components(path);
    let y = path_components(dir);
    assert(byte_views(x@).len() == x@.len() && byte_views(y@).len() == y@.len());
    begins_with(&x, &y)
}

// ---- laws ----

/// The viewer looks for the sidecar of a dump where the server puts it.
pub proof fn law_sidecar_is_found(id: Seq<char>)
    ensures
        sidecar_of(dump_name(id)) == Some(sidecar_name(id)),
{
    lemma_suffix_lengths();
    assert(dump_name(id).skip(id.len() as int) =~= ".json"@);
    assert(without_last(dump_name(id), 5) =~= id);
}

/// A scan never lists a sidecar, and the viewer never takes one for a dump.
pub proof fn law_sidecars_are_hidden(id: Seq<char>)
    ensures
        !names_dump(Some(sidecar_name(id))),
        names_sidecar(Some(sidecar_name(id))),
{
    lemma_suffix_lengths();
    assert(sidecar_name(id).skip(id.len() as int) =~= ".metadata.json"@);
}

/// A scan lists every dump whose identifier does not itself end in `.metadata`.
pub proof fn law_dumps_are_listed(id: Seq<char>)
    requires
        !has_suffix(id, ".metadata"@),
    ensures
        names_dump(Some(dump_name(id))),
        !names_sidecar(Some(dump_name(id))),
{
    lemma_suffix_lengths();
    let name = dump_name(id);
    assert(name.skip(id.len() as int) =~= ".json"@);
    if has_suffix(name, ".metadata.json"@) {
        let tail = name.skip(name.len() - 14);
        assert(id.skip(id.len() - 9) =~= tail.take(9));
        assert(".metadata"@.len() == 9);
    }
}

/// A file under its temporary name is not listed and is not the final file.
pub proof fn law_temporary_files_are_hidden(name: Seq<char>)
    ensures
        !names_dump(Some(temp_name(name))),
        !names_sidecar(Some(temp_name(name))),
        temp_name(name) != name,
{
    lemma_suffix_lengths();
    let temp = temp_name(name);
    assert(temp.len() == name.len() + 4);
    assert(temp.last() == 'p');
    if has_suffix(temp, ".json"@) {
        assert(temp.skip(temp.len() - 5).last() == temp.last());
    }
    if has_suffix(temp, ".metadata.json"@) {
        assert(".metadata.json"@.skip(9).last() == ".metadata.json"@.last());
        assert(temp.skip(temp.len() - 14).last() == temp.last());
    }
}

/// A slash at the end of a path does not count.
pub proof fn law_slash_at_the_end_does_not_count(path: Seq<u8>)
    requires
        path.len() > 0,
    ensures
        is_same_path(path.push(47), path),
{
    let longer = path.push(47);
    assert(longer.drop_last() =~= path);
    let pieces = between_slashes(path);
    assert(pieces.push(seq![]).drop_last() =~= pieces);
}

/// A slash or a slash and a dot more between two components does not count.
pub proof fn law_more_slashes_do_not_count(dir: Seq<u8>, name: Seq<u8>)
    requires
        dir.len() > 0,
        !name.contains(47),
    ensures
        is_same_path(dir.push(47).push(47) + name, dir.push(47) + name),
        is_same_path(dir.push(47).push(46).push(47) + name, dir.push(47) + name),
{
    let once = dir.push(47);
    let twice = once.push(47);
    let dotted = once.push(46).push(47);
    let pieces = between_slashes(dir);
    lemma_between_slashes(dir);
    assert(once.drop_last() =~= dir);
    assert(twice.drop_last() =~= once);
    assert(once.push(46).drop_last() =~= once);
    assert(dotted.drop_last() =~= once.push(46));
    let empty: Seq<u8> = seq![];
    let dot: Seq<u8> = seq![46u8];
    assert(between_slashes(once) == pieces.push(empty));
    assert(between_slashes(twice) == pieces.push(empty).push(empty));
    assert(pieces.push(empty).drop_last() =~= pieces);
    assert(empty.push(46) =~= dot);
    assert(between_slashes(once.push(46)) == pieces.push(dot));
    assert(between_slashes(dotted) == pieces.push(dot).push(empty));
    lemma_append_name(once, name);
    lemma_append_name(twice, name);
    lemma_append_name(dotted, name);
    assert(empty + name =~= name);
    assert(pieces.push(empty).push(empty).drop_last() =~= pieces.push(empty));
    assert(pieces.push(dot).push(empty).drop_last() =~= pieces.push(dot));
    assert(pieces.push(empty).drop_last() =~= pieces);
    lemma_push_piece(pieces, empty);
    lemma_push_piece(pieces, dot);
    lemma_push_piece(pieces, name);
    lemma_push_piece(pieces.push(empty), name);
    lemma_push_piece(pieces.push(dot), name);
    assert(between_slashes(once + name) == pieces.push(name));
    assert(between_slashes(twice + name) == pieces.push(empty).push(name));
    assert(between_slashes(dotted + name) == pieces.push(dot).push(name));
    assert((once + name)[0] == dir[0] && (twice + name)[0] == dir[0] && (dotted + name)[0]
        == dir[0]);
}

proof fn lemma_between_slashes(path: Seq<u8>)
    ensures
        between_slashes(path).len() > 0,
    decreases path.len(),
{
    if path.len() > 0 {
        lemma_between_slashes(path.drop_last());
    }
}

proof fn lemma_push_piece(pieces: Seq<Seq<u8>>, piece: Seq<u8>)
    ensures
        components_among(pieces.push(piece)) == if is_component(piece, pieces.len() == 0) {
            components_among(pieces).push(piece)
        } else {
            components_among(pieces)
        },
{
    assert(pieces.push(piece).drop_last() =~= pieces);
}

/// Bytes without a slash are appended to the last piece.
proof fn lemma_append_name(path: Seq<u8>, name: Seq<u8>)
    requires
        !name.contains(47),
    ensures
        between_slashes(path + name) == between_slashes(path).drop_last().push(
            between_slashes(path).last() + name,
        ),
    decreases name.len(),
{
    let pieces = between_slashes(path);
    lemma_between_slashes(path);
    if name.len() == 0 {
        assert(path + name =~= path);
        assert(pieces.last() + name =~= pieces.last());
        assert(pieces.drop_last().push(pieces.last()) =~= pieces);
    } else {
        let shorter = name.drop_last();
        if shorter.contains(47) {
            let k = choose|k: int| 0 <= k < shorter.len() && shorter[k] == 47;
            assert(name[k] == 47);
        }
        lemma_append_name(path, shorter);
        assert(name[name.len() - 1] == name.last());
        assert((path + name).drop_last() =~= path + shorter);
        assert((path + name).last() == name.last());
        assert((pieces.last() + shorter).push(name.last()) =~= pieces.last() + name);
        let mid = pieces.drop_last().push(pieces.last() + shorter);
        assert(mid.drop_last() =~= pieces.drop_last());
    }
}

/// The title in a file name is what stands before its last underscore, whatever
/// that is; without one there is none.
pub proof fn law_titles_in_names(title: Seq<char>, id: Seq<char>)
    requires
        !id.contains('_'),
    ensures
        title_in_name(title + seq!['_'] + id + ".json"@) == title,
        title_in_name(id + ".json"@).len() == 0,
        !has_suffix(title + seq!['_'] + id, ".json"@) ==> title_in_name(title + seq!['_'] + id)
            == title,
        !has_suffix(id, ".json"@) ==> title_in_name(id).len() == 0,
{
    lemma_suffix_lengths();
    let named = title + seq!['_'] + id;
    crate::text::law_suffix(named, ".json"@, named);
    crate::text::law_suffix(id, ".json"@, id);
    lemma_before_last(title, id);
    lemma_no_last(id);
}

proof fn lemma_before_last(title: Seq<char>, id: Seq<char>)
    requires
        !id.contains('_'),
    ensures
        before_last(title + seq!['_'] + id, '_') == title,
    decreases id.len(),
{
    let s = title + seq!['_'] + id;
    if id.len() == 0 {
        assert(s.last() == '_');
        assert(s.drop_last() =~= title);
    } else {
        let shorter = id.drop_last();
        assert(id[id.len() - 1] == id.last());
        if shorter.contains('_') {
            let k = choose|k: int| 0 <= k < shorter.len() && shorter[k] == '_';
            assert(id[k] == '_');
        }
        assert(s.last() == id.last());
        assert(s.drop_last() =~= title + seq!['_'] + shorter);
        lemma_before_last(title, shorter);
    }
}

proof fn lemma_no_last(id: Seq<char>)
    requires
        !id.contains('_'),
    ensures
        before_last(id, '_').len() == 0,
    decreases id.len(),
{
    if id.len() > 0 {
        let shorter = id.drop_last();
        assert(id[id.len() - 1] == id.last());
        if shorter.contains('_') {
            let k = choose|k: int| 0 <= k < shorter.len() && shorter[k] == '_';
            assert(id[k] == '_');
        }
        lemma_no_last(shorter);
    }
}

/// A name below a directory is the directory, one slash and the name, as far as
/// the directory does not end in a slash already.
pub proof fn law_joined_paths(base: Seq<char>, name: Seq<char>)
    ensures
        base.len() > 0 && base.last() != '/' ==> joined(base, name) == base + seq!['/'] + name,
        base.len() > 0 && base.last() == '/' ==> joined(base, name) == base + name,
        base.len() == 0 ==> joined(base, name) == name,
{
    if base.len() > 0 && base.last() != '/' {
        assert(joined(base, name) =~= base + seq!['/'] + name);
    }
    if base.len() == 0 {
        assert(joined(base, name) =~= name);
    }
}

/// Dumps and the log live in one directory: below `XDG_DATA_HOME`, whatever
/// `HOME` is, unless it is empty or not set; else below `HOME`. Without either
/// they live in the working directory.
pub proof fn law_where_data_lives(xdg: Seq<char>, home: Seq<char>, other: Option<Seq<char>>)
    requires
        xdg.len() > 0,
    ensures
        dumps_dir_of(Some(xdg), other) == joined(joined(xdg, "rubbish"@), "dumps"@),
        log_file_of(Some(xdg), other) == joined(joined(xdg, "rubbish"@), "info.log"@),
        dumps_dir_of(None, Some(home)) == joined(
            joined(joined(joined(home, ".local"@), "share"@), "rubbish"@),
            "dumps"@,
        ),
        log_file_of(None, Some(home)) == joined(
            joined(joined(joined(home, ".local"@), "share"@), "rubbish"@),
            "info.log"@,
        ),
        dumps_dir_of(Some(seq![]), other) == dumps_dir_of(None, other),
        log_file_of(Some(seq![]), other) == log_file_of(None, other),
        dumps_dir_of(None, None) == "./dumps"@,
        log_file_of(None, None) == "./info.log"@,
{
}

/// Every path lies within itself, and what lies within a directory lies within
/// whatever that lies within. Two paths within each other are the same.
pub proof fn law_within_is_an_order(a: Seq<u8>, b: Seq<u8>, c: Seq<u8>)
    ensures
        within(a, a),
        within(a, b) && within(b, c) ==> within(a, c),
        within(a, b) && within(b, a) ==> is_same_path(a, b),
        is_same_path(a, b) ==> within(a, b),
{
    let (x, y, z) = (components(a), components(b), components(c));
    assert(x.take(x.len() as int) =~= x);
    assert(y.take(y.len() as int) =~= y);
    if within(a, b) && within(b, c) {
        assert(x.take(z.len() as int) =~= x.take(y.len() as int).take(z.len() as int));
    }
}

/// A name in a directory lies within the directory, is another path than the
/// directory, and is the same path as another name there only if the names are
/// the same.
pub proof fn law_names_in_a_directory(dir: Seq<u8>, name: Seq<u8>, other: Seq<u8>)
    requires
        dir.len() > 0,
        is_file_name(name),
        is_file_name(other),
    ensures
        within(dir.push(47) + name, dir),
        !is_same_path(dir.push(47) + name, dir),
        is_same_path(dir.push(47) + name, dir.push(47) + other) <==> name == other,
{
    lemma_components_of_name(dir, name);
    lemma_components_of_name(dir, other);
    let c = components(dir);
    assert(c.push(name).take(c.len() as int) =~= c);
    assert(c.push(name).last() == name && c.push(other).last() == other);
    assert(c.push(name).len() == c.len() + 1);
}

/// The bytes can be the name of a file.
pub open spec fn is_file_name(name: Seq<u8>) -> bool {
    name.len() > 0 && !name.contains(47) && name != seq![46u8]
}

proof fn lemma_components_of_name(dir: Seq<u8>, name: Seq<u8>)
    requires
        dir.len() > 0,
        is_file_name(name),
    ensures
        components(dir.push(47) + name) == components(dir).push(name),
{
    let once = dir.push(47);
    let pieces = between_slashes(dir);
    let empty: Seq<u8> = seq![];
    lemma_between_slashes(dir);
    assert(once.drop_last() =~= dir);
    assert(between_slashes(once) == pieces.push(empty));
    lemma_append_name(once, name);
    assert(empty + name =~= name);
    assert(pieces.push(empty).drop_last() =~= pieces);
    lemma_push_piece(pieces, name);
    assert((once + name)[0] == dir[0]);
    assert(components(once + name) =~= components(dir).push(name));
}

/// A file is a dump by its name exactly if that ends in `.json` and not in
/// `.metadata.json`, and a sidecar exactly if it ends in `.metadata.json`. A name
/// that is no valid text is that of a dump. Only a name that ends in `.json` has
/// a sidecar, and the sidecar's name gives it back.
pub proof fn law_what_names_tell(name: Seq<char>, head: Seq<char>)
    ensures
        names_sidecar(Some(head + ".metadata.json"@)),
        !names_dump(Some(head + ".metadata.json"@)),
        names_sidecar(Some(name)) ==> exists|h: Seq<char>| name == #[trigger] (
        h + ".metadata.json"@),
        names_dump(Some(name)) ==> exists|h: Seq<char>| name == #[trigger] (h + ".json"@),
        name == head + ".json"@ && !has_suffix(head, ".metadata"@) ==> names_dump(Some(name))
            && !names_sidecar(Some(name)),
        names_dump(None),
        !names_sidecar(None),
        sidecar_of(head + ".json"@) == Some(head + ".metadata.json"@),
        sidecar_of(name) is Some ==> exists|h: Seq<char>|
            name == #[trigger] (h + ".json"@) && sidecar_of(name) == Some(h + ".metadata.json"@),
{
    lemma_suffix_lengths();
    law_sidecars_are_hidden(head);
    law_sidecar_is_found(head);
    crate::text::law_suffix(name, ".metadata.json"@, head);
    crate::text::law_suffix(name, ".json"@, head);
    if names_sidecar(Some(name)) {
        assert(name == without_last(name, 14) + ".metadata.json"@);
    }
    if has_suffix(name, ".json"@) {
        assert(name == without_last(name, 5) + ".json"@);
    }
    if name == head + ".json"@ && !has_suffix(head, ".metadata"@) {
        law_dumps_are_listed(head);
    }
}

/// The directory is the chosen one where that could be made, else `./dumps`.
pub proof fn law_directory_in_use(chosen: String, made: bool, dir: String)
    requires
        call_ensures(dir_to_use, (chosen, made), dir),
    ensures
        made ==> dir@ == chosen@,
        !made ==> dir@ == "./dumps"@,
{
}

/// A path that starts with a slash starts at the root.
pub proof fn law_paths_from_the_root(path: Seq<u8>)
    requires
        path.len() > 0,
        path[0] == 47,
    ensures
        components(path).len() > 0,
        components(path)[0] == seq![47u8],
{
}

} // verus!
