//! The server: what is stored of a posted dump, under which names, and what is
//! answered.

use vstd::prelude::*;
use vstd::utf8::encode_utf8;
use crate::browser::Viewer;
use crate::clock::{is_stamp, second_of, showable};
use crate::json::{json_pretty, pretty_text, whole_numbers};
use crate::listing::{shown_by_scan, stamp_time, DumpView, FileFacts};
use crate::metadata::{in_unit, metadata_of, metadata_text, sidecar_members, MetadataView, StampUnit};
use crate::names::{
    dump_file_name, dump_name, names_dump, names_sidecar, sidecar_file_name, sidecar_name,
    sidecar_of, temp_file_name, temp_name,
};
use crate::preview::{preview_text, Reading, PREVIEW_LIMIT};
use crate::text::{chars_of, has_suffix, join2, string_of, text_view, views};

verus! {

// ---- header values ----

/// The byte may stand in the text of a header value.
pub open spec fn is_header_byte(b: u8) -> bool {
    32 <= b < 127 || b == 9
}

/// The text of a header value; `None` where it holds anything but visible ASCII
/// characters, spaces and tabs.
pub open spec fn header_of(bytes: Seq<u8>) -> Option<Seq<char>> {
    if forall|i: int| 0 <= i < bytes.len() ==> is_header_byte(#[trigger] bytes[i]) {
        Some(bytes.map_values(|b: u8| b as char))
    } else {
        None
    }
}

/// Reads a header value with `axum::http::HeaderValue::to_str`, after making one
/// of the bytes with `from_bytes`. There is a text exactly where every byte is a
/// visible ASCII character, a space or a tab; it has one character for each
/// byte.
#[verifier::external_body]
fn header_text(bytes: &[u8]) -> (text: Option<String>)
    ensures
        text_view(text) == header_of(bytes@),
{
    let value = axum::http::HeaderValue::from_bytes(bytes).ok()?;
    value.to_str().ok().map(|s| s.to_string())
}

// ---- tags ----

/// White space: the characters with the Unicode property of that name.
pub open spec fn is_space(c: char) -> bool {
    ||| '\u{9}' <= c <= '\u{d}'
    ||| c == ' '
    ||| c == '\u{85}'
    ||| c == '\u{a0}'
    ||| c == '\u{1680}'
    ||| '\u{2000}' <= c <= '\u{200a}'
    ||| c == '\u{2028}'
    ||| c == '\u{2029}'
    ||| c == '\u{202f}'
    ||| c == '\u{205f}'
    ||| c == '\u{3000}'
}

/// The pieces of `s` between commas.
pub open spec fn pieces(s: Seq<char>) -> Seq<Seq<char>>
    decreases s.len(),
{
    if s.len() == 0 {
        seq![seq![]]
    } else {
        let before = pieces(s.drop_last());
        if s.last() == ',' {
            before.push(seq![])
        } else {
            before.drop_last().push(before.last().push(s.last()))
        }
    }
}

/// `s` without white space at its end.
pub open spec fn trimmed_end(s: Seq<char>) -> Seq<char>
    decreases s.len(),
{
    if s.len() > 0 && is_space(s.last()) {
        trimmed_end(s.drop_last())
    } else {
        s
    }
}

/// `s` without white space at its start.
pub open spec fn trimmed_start(s: Seq<char>) -> Seq<char>
    decreases s.len(),
{
    if s.len() > 0 && is_space(s[0]) {
        trimmed_start(s.skip(1))
    } else {
        s
    }
}

/// `s` without white space around it.
pub open spec fn trimmed(s: Seq<char>) -> Seq<char> {
    trimmed_end(trimmed_start(s))
}

/// The trimmed texts of `list` that are not empty.
pub open spec fn trimmed_texts(list: Seq<Seq<char>>) -> Seq<Seq<char>>
    decreases list.len(),
{
    if list.len() == 0 {
        seq![]
    } else {
        let before = trimmed_texts(list.drop_last());
        let t = trimmed(list.last());
        if t.len() > 0 {
            before.push(t)
        } else {
            before
        }
    }
}

/// The tags in a header value: what stands between the commas, without white
/// space around it, where anything is left.
pub open spec fn tags_in(s: Seq<char>) -> Seq<Seq<char>> {
    trimmed_texts(pieces(s))
}

/// A text that can be a tag: not empty, no comma, no white space at its ends.
pub open spec fn is_tag(t: Seq<char>) -> bool {
    &&& t.len() > 0
    &&& !t.contains(',')
    &&& !is_space(t[0])
    &&& !is_space(t.last())
}

fn space(c: char) -> (yes: bool)
    ensures
        yes == is_space(c),
{
    ('\u{9}' <= c && c <= '\u{d}') || c == ' ' || c == '\u{85}' || c == '\u{a0}' || c == '\u{1680}'
        || ('\u{2000}' <= c && c <= '\u{200a}') || c == '\u{2028}' || c == '\u{2029}' || c
        == '\u{202f}' || c == '\u{205f}' || c == '\u{3000}'
}

/// `chars[from..to]` without white space around it.
fn trim(chars: &Vec<char>, from: usize, to: usize) -> (s: String)
    requires
        from <= to <= chars@.len(),
    ensures
        s@ == trimmed(chars@.subrange(from as int, to as int)),
{
    let ghost all = chars@.subrange(from as int, to as int);
    let mut a: usize = from;
    while a < to && space(chars[a])
        invariant
            from <= a <= to <= chars@.len(),
            all == chars@.subrange(from as int, to as int),
            trimmed_start(all) == trimmed_start(chars@.subrange(a as int, to as int)),
        decreases to - a,
    {
        assert(chars@.subrange(a as int, to as int).skip(1) =~= chars@.subrange(
            a + 1,
            to as int,
        ));
        a = a + 1;
    }
    let mut b: usize = to;
    let ghost rest = chars@.subrange(a as int, to as int);
    assert(trimmed_start(all) == rest);
    while b > a && space(chars[b - 1])
        invariant
            from <= a <= b <= to <= chars@.len(),
            rest == chars@.subrange(a as int, to as int),
            trimmed_end(rest) == trimmed_end(chars@.subrange(a as int, b as int)),
        decreases b - a,
    {
        assert(chars@.subrange(a as int, b as int).drop_last() =~= chars@.subrange(
            a as int,
            b - 1,
        ));
        b = b - 1;
    }
    string_of(chars, a, b)
}

/// The tags in a header value.
pub fn parse_tags(header: &str) -> (tags: Vec<String>)
    ensures
        views(tags@) == tags_in(header@),
{
    let chars = chars_of(header);
    let ghost s = header@;
    let mut tags: Vec<String> = Vec::new();
    let mut start: usize = 0;
    let mut i: usize = 0;
    proof {
        assert(s.take(0) =~= seq![]);
        assert(s.subrange(0, 0) =~= seq![]);
        assert(pieces(s.take(0)).drop_last() =~= seq![]);
        assert(views(tags@) =~= trimmed_texts(pieces(s.take(0)).drop_last()));
    }
    while i < chars.len()
        invariant
            chars@ == s,
            start <= i <= chars@.len(),
            pieces(s.take(i as int)).len() > 0,
            pieces(s.take(i as int)).last() == s.subrange(start as int, i as int),
            views(tags@) == trimmed_texts(pieces(s.take(i as int)).drop_last()),
        decreases chars@.len() - i,
    {
        let ghost before = pieces(s.take(i as int));
        let ghost known = views(tags@);
        proof {
            assert(s.take(i + 1).drop_last() =~= s.take(i as int));
            assert(s.take(i + 1).last() == s[i as int]);
        }
        if chars[i] == ',' {
            let t = trim(&chars, start, i);
            let ghost piece = s.subrange(start as int, i as int);
            if !t.as_str().is_empty() {
                tags.push(t);
                assert(views(tags@) =~= known.push(trimmed(piece)));
            }
            start = i + 1;
            proof {
                assert(pieces(s.take(i + 1)).drop_last() =~= before);
                assert(s.subrange(start as int, i + 1) =~= seq![]);
            }
        } else {
            proof {
                assert(pieces(s.take(i + 1)).drop_last() =~= before.drop_last());
                assert(s.subrange(start as int, i + 1) =~= s.subrange(start as int, i as int).push(
                    s[i as int],
                ));
            }
        }
        i = i + 1;
    }
    assert(s.take(i as int) =~= s);
    let ghost known = views(tags@);
    let t = trim(&chars, start, i);
    if !t.as_str().is_empty() {
        tags.push(t);
        assert(views(tags@) =~= known.push(trimmed(s.subrange(start as int, i as int))));
    }
    tags
}

// ---- what is stored ----

/// The bytes that are stored for a posted body, given its pretty-printed form
/// where it is a JSON document: that form and a line feed, else the body as it
/// came.
pub open spec fn saved_of(body: Seq<u8>, pretty: Option<Seq<char>>) -> Seq<u8> {
    match pretty {
        Some(text) => encode_utf8(text.push('\n')),
        None => body,
    }
}

/// The bytes that are stored for a posted body, given its pretty-printed form.
pub fn bytes_to_save(body: &Vec<u8>, pretty: Option<String>) -> (bytes: Vec<u8>)
    ensures
        bytes@ == saved_of(body@, text_view(pretty)),
{
    match pretty {
        Some(text) => {
            let mut line = text;
            line.push('\n');
            vstd::slice::slice_to_vec(line.as_str().as_bytes())
        },
        None => vstd::slice::slice_to_vec(body.as_slice()),
    }
}

/// The bytes that are stored for a posted body. Storing what was stored changes
/// nothing, where the body is no JSON document or the numbers in it are whole.
pub fn dump_bytes(body: &Vec<u8>) -> (bytes: Vec<u8>)
    ensures
        bytes@ == saved_of(body@, pretty_text(body@)),
        (pretty_text(body@) matches Some(t) ==> whole_numbers(t)) ==> {
            &&& pretty_text(bytes@) == pretty_text(body@)
            &&& saved_of(bytes@, pretty_text(bytes@)) == bytes@
        },
{
    bytes_to_save(body, json_pretty(body.as_slice()))
}

/// A character of Crockford's base 32.
pub open spec fn is_base32(c: char) -> bool {
    ||| '0' <= c <= '9'
    ||| 'A' <= c <= 'Z' && c != 'I' && c != 'L' && c != 'O' && c != 'U'
}

/// The identifier of a dump: a ULID, 26 characters that hold 128 bits.
pub open spec fn is_id(id: Seq<char>) -> bool {
    &&& id.len() == 26
    &&& forall|i: int| 0 <= i < id.len() ==> is_base32(#[trigger] id[i])
    &&& '0' <= id[0] <= '7'
}

/// Makes a new identifier with `ulid::Ulid::new` and `to_string`. It holds the
/// time and a random number, so only its form is stated.
#[verifier::external_body]
fn fresh_id() -> (id: String)
    ensures
        is_id(id@),
{
    ulid::Ulid::new().to_string()
}

/// The time now with `chrono::Utc::now`, in milliseconds since 1970. It is never
/// before 1970; nothing else is stated of it.
#[verifier::external_body]
fn now_millis() -> (millis: i64)
    ensures
        millis >= 0,
{
    chrono::Utc::now().timestamp_millis()
}

/// The files of a dump, each with the name under which it is written before it
/// is moved into place.
#[derive(Debug)]
pub struct DumpFiles {
    pub dump: String,
    pub dump_temp: String,
    pub sidecar: String,
    pub sidecar_temp: String,
}

impl DumpFiles {
    /// The files are those of the dump `id`.
    pub open spec fn belong_to(&self, id: Seq<char>) -> bool {
        &&& self.dump@ == dump_name(id)
        &&& self.dump_temp@ == temp_name(dump_name(id))
        &&& self.sidecar@ == sidecar_name(id)
        &&& self.sidecar_temp@ == temp_name(sidecar_name(id))
    }
}

/// The files of the dump `id`.
pub fn files_for(id: &str) -> (files: DumpFiles)
    ensures
        files.belong_to(id@),
{
    let dump = dump_file_name(id);
    let dump_temp = temp_file_name(&dump);
    let sidecar = sidecar_file_name(id);
    let sidecar_temp = temp_file_name(&sidecar);
    DumpFiles { dump, dump_temp, sidecar, sidecar_temp }
}

/// The files of a new dump.
pub fn new_dump_files() -> (files: DumpFiles)
    ensures
        exists|id: Seq<char>| is_id(id) && #[trigger] files.belong_to(id),
{
    let id = fresh_id();
    files_for(&id)
}

/// The title in a header; empty where there is none or it cannot be read.
pub open spec fn title_of_header(header: Option<Seq<u8>>) -> Seq<char> {
    match header {
        Some(bytes) => match header_of(bytes) {
            Some(text) => text,
            None => ""@,
        },
        None => ""@,
    }
}

/// The tags in a header; none where there is none or it cannot be read.
pub open spec fn tags_of_header(header: Option<Seq<u8>>) -> Seq<Seq<char>> {
    match header {
        Some(bytes) => match header_of(bytes) {
            Some(text) => tags_in(text),
            None => seq![],
        },
        None => seq![],
    }
}

pub open spec fn bytes_view(bytes: Option<Vec<u8>>) -> Option<Seq<u8>> {
    match bytes {
        Some(b) => Some(b@),
        None => None,
    }
}

/// What the sidecar says of a dump that came with the two headers at the time
/// `millis`.
pub open spec fn posted_metadata(
    title: Option<Seq<u8>>,
    tags: Option<Seq<u8>>,
    millis: i64,
    unit: StampUnit,
) -> MetadataView {
    MetadataView {
        title: title_of_header(title),
        tags: tags_of_header(tags),
        timestamp: Some(in_unit(millis, unit)),
    }
}

/// `text` is the sidecar of a dump that came with the two headers at the time
/// `millis`, and is read back as such.
pub open spec fn is_sidecar_text(
    text: Seq<char>,
    title: Option<Seq<u8>>,
    tags: Option<Seq<u8>>,
    millis: i64,
) -> bool {
    &&& text == crate::json::object_text(
        sidecar_members(title_of_header(title), tags_of_header(tags), millis),
    )
    &&& forall|unit: StampUnit| #[trigger]
        metadata_of(text, unit) == posted_metadata(title, tags, millis, unit)
}

/// The text of the sidecar for a dump that came with the two headers at the
/// time `millis`.
pub fn sidecar_text(title: &Option<Vec<u8>>, tags: &Option<Vec<u8>>, millis: i64) -> (text: String)
    ensures
        is_sidecar_text(text@, bytes_view(*title), bytes_view(*tags), millis),
{
    proof {
        reveal_strlit("");
    }
    let title_text = match title {
        Some(bytes) => match header_text(bytes.as_slice()) {
            Some(text) => text,
            None => join2("", ""),
        },
        None => join2("", ""),
    };
    let tag_texts: Vec<String> = match tags {
        Some(bytes) => match header_text(bytes.as_slice()) {
            Some(text) => parse_tags(&text),
            None => Vec::new(),
        },
        None => Vec::new(),
    };
    assert(views(tag_texts@) =~= tags_of_header(bytes_view(*tags)));
    assert(title_text@ =~= title_of_header(bytes_view(*title)));
    metadata_text(&title_text, &tag_texts, millis)
}

/// The text of the sidecar for a dump that just came with the two headers.
pub fn new_sidecar_text(title: &Option<Vec<u8>>, tags: &Option<Vec<u8>>) -> (text: String)
    ensures
        exists|millis: i64|
            millis >= 0 && #[trigger] is_sidecar_text(
                text@,
                bytes_view(*title),
                bytes_view(*tags),
                millis,
            ),
{
    let millis: i64 = now_millis();
    let text = sidecar_text(title, tags, millis);
    assert(is_sidecar_text(text@, bytes_view(*title), bytes_view(*tags), millis));
    text
}

// ---- what is answered ----

/// A step in storing a dump.
#[derive(Debug, Clone, Copy, PartialEq, Eq, Structural)]
pub enum Stage {
    /// Make the directory for dumps.
    Directory,
    /// Write the dump.
    Dump,
    /// Write its sidecar.
    Sidecar,
}

/// What comes after a step.
#[derive(Debug, Clone, Copy, PartialEq, Eq, Structural)]
pub enum Next {
    Go(Stage),
    Answer(Answer),
}

/// What is answered.
#[derive(Debug, Clone, Copy, PartialEq, Eq, Structural)]
pub enum Answer {
    Stored,
    NoDirectory,
    NotWritten,
}

/// What comes after a step that succeeded or failed. A dump without its sidecar
/// is still a stored dump.
pub open spec fn next_of(stage: Stage, succeeded: bool) -> Next {
    match stage {
        Stage::Directory => if succeeded {
            Next::Go(Stage::Dump)
        } else {
            Next::Answer(Answer::NoDirectory)
        },
        Stage::Dump => if succeeded {
            Next::Go(Stage::Sidecar)
        } else {
            Next::Answer(Answer::NotWritten)
        },
        Stage::Sidecar => Next::Answer(Answer::Stored),
    }
}

/// What comes after a step that succeeded or failed.
pub fn next_stage(stage: Stage, succeeded: bool) -> (next: Next)
    ensures
        next == next_of(stage, succeeded),
{
    match stage {
        Stage::Directory => if succeeded {
            Next::Go(Stage::Dump)
        } else {
            Next::Answer(Answer::NoDirectory)
        },
        Stage::Dump => if succeeded {
            Next::Go(Stage::Sidecar)
        } else {
            Next::Answer(Answer::NotWritten)
        },
        Stage::Sidecar => Next::Answer(Answer::Stored),
    }
}

impl Answer {
    pub open spec fn status_code(self) -> u16 {
        match self {
            Answer::Stored => 200,
            Answer::NoDirectory => 500,
            Answer::NotWritten => 500,
        }
    }

    pub open spec fn body(self) -> Seq<char> {
        match self {
            Answer::Stored => "ok"@,
            Answer::NoDirectory => "failed to create dumps dir"@,
            Answer::NotWritten => "write failed"@,
        }
    }

    /// The HTTP status.
    pub fn status(self) -> (code: u16)
        ensures
            code == self.status_code(),
    {
        match self {
            Answer::Stored => 200,
            Answer::NoDirectory => 500,
            Answer::NotWritten => 500,
        }
    }

    /// The body of the answer.
    pub fn text(self) -> (text: &'static str)
        ensures
            text@ == self.body(),
    {
        match self {
            Answer::Stored => "ok",
            Answer::NoDirectory => "failed to create dumps dir",
            Answer::NotWritten => "write failed",
        }
    }
}

// ---- laws ----

proof fn lemma_trimmed_start(s: Seq<char>)
    ensures
        exists|n: int| 0 <= n <= s.len() && trimmed_start(s) == #[trigger] s.skip(n),
        trimmed_start(s).len() > 0 ==> !is_space(trimmed_start(s)[0]),
    decreases s.len(),
{
    if s.len() > 0 && is_space(s[0]) {
        lemma_trimmed_start(s.skip(1));
        let n = choose|n: int|
            0 <= n <= s.skip(1).len() && trimmed_start(s.skip(1)) == #[trigger] s.skip(1).skip(n);
        assert(s.skip(1).skip(n) =~= s.skip(n + 1));
    } else {
        assert(s.skip(0) =~= s);
    }
}

proof fn lemma_trimmed_end(s: Seq<char>)
    ensures
        exists|n: int| 0 <= n <= s.len() && trimmed_end(s) == #[trigger] s.take(n),
        trimmed_end(s).len() > 0 ==> !is_space(trimmed_end(s).last()),
    decreases s.len(),
{
    if s.len() > 0 && is_space(s.last()) {
        lemma_trimmed_end(s.drop_last());
        let n = choose|n: int|
            0 <= n <= s.drop_last().len() && trimmed_end(s.drop_last())
                == #[trigger] s.drop_last().take(n);
        assert(s.drop_last().take(n) =~= s.take(n));
    } else {
        assert(s.take(s.len() as int) =~= s);
    }
}

/// Trimming leaves no white space at the ends, and takes nothing but the ends.
proof fn lemma_trimmed(s: Seq<char>)
    ensures
        !s.contains(',') ==> !trimmed(s).contains(','),
        trimmed(s).len() > 0 ==> !is_space(trimmed(s)[0]) && !is_space(trimmed(s).last()),
{
    let start = trimmed_start(s);
    lemma_trimmed_start(s);
    lemma_trimmed_end(start);
    let n = choose|n: int| 0 <= n <= s.len() && start == #[trigger] s.skip(n);
    let m = choose|m: int| 0 <= m <= start.len() && trimmed(s) == #[trigger] start.take(m);
    if trimmed(s).contains(',') {
        let k = choose|k: int| 0 <= k < trimmed(s).len() && trimmed(s)[k] == ',';
        assert(s[n + k] == ',');
    }
}

proof fn lemma_pieces(s: Seq<char>)
    ensures
        pieces(s).len() > 0,
        forall|i: int| 0 <= i < pieces(s).len() ==> !(#[trigger] pieces(s)[i]).contains(','),
    decreases s.len(),
{
    if s.len() > 0 {
        let before = pieces(s.drop_last());
        lemma_pieces(s.drop_last());
        assert forall|i: int| 0 <= i < pieces(s).len() implies !(
        #[trigger] pieces(s)[i]).contains(',') by {
            if s.last() != ',' && i == before.len() - 1 {
                let piece = before.last();
                assert(!before[i].contains(','));
                if piece.push(s.last()).contains(',') {
                    let k = choose|k: int|
                        0 <= k < piece.push(s.last()).len() && piece.push(s.last())[k] == ',';
                    assert(k < piece.len() ==> piece[k] == ',');
                }
            } else if i < before.len() {
                assert(pieces(s)[i] == before[i]);
            }
        }
    }
}

proof fn lemma_trimmed_texts(list: Seq<Seq<char>>)
    requires
        forall|i: int| 0 <= i < list.len() ==> !(#[trigger] list[i]).contains(','),
    ensures
        forall|i: int|
            0 <= i < trimmed_texts(list).len() ==> is_tag(#[trigger] trimmed_texts(list)[i]),
    decreases list.len(),
{
    if list.len() > 0 {
        let shorter = list.drop_last();
        assert forall|i: int| 0 <= i < shorter.len() implies !(
        #[trigger] shorter[i]).contains(',') by {
            assert(shorter[i] == list[i]);
        }
        lemma_trimmed_texts(shorter);
        lemma_trimmed(list.last());
        assert(!list[list.len() - 1].contains(','));
        let tags = trimmed_texts(list);
        assert forall|i: int| 0 <= i < tags.len() implies is_tag(#[trigger] tags[i]) by {
            let before = trimmed_texts(shorter);
            if i < before.len() {
                assert(tags[i] == before[i]);
            }
        }
    }
}

/// Every tag taken from a header is a tag: it is not empty, has no comma in it
/// and no white space around it.
pub proof fn law_parsed_tags_are_tags(header: Seq<char>)
    ensures
        forall|i: int| 0 <= i < tags_in(header).len() ==> is_tag(#[trigger] tags_in(header)[i]),
{
    lemma_pieces(header);
    lemma_trimmed_texts(pieces(header));
}

/// Texts with commas between them.
pub open spec fn with_commas(list: Seq<Seq<char>>) -> Seq<char>
    decreases list.len(),
{
    if list.len() == 0 {
        seq![]
    } else if list.len() == 1 {
        list[0]
    } else {
        with_commas(list.drop_last()).push(',') + list.last()
    }
}

proof fn lemma_pieces_append(a: Seq<char>, b: Seq<char>)
    requires
        !b.contains(','),
    ensures
        pieces(a + b) == pieces(a).drop_last().push(pieces(a).last() + b),
    decreases b.len(),
{
    lemma_pieces(a);
    if b.len() == 0 {
        assert(a + b =~= a);
        assert(pieces(a).last() + b =~= pieces(a).last());
        assert(pieces(a).drop_last().push(pieces(a).last()) =~= pieces(a));
    } else {
        let c = b.drop_last();
        if c.contains(',') {
            let k = choose|k: int| 0 <= k < c.len() && c[k] == ',';
            assert(b[k] == ',');
        }
        lemma_pieces_append(a, c);
        assert(b[b.len() - 1] == b.last());
        assert((a + b).drop_last() =~= a + c);
        assert((a + b).last() == b.last());
        assert((pieces(a).last() + c).push(b.last()) =~= pieces(a).last() + b);
        let mid = pieces(a).drop_last().push(pieces(a).last() + c);
        assert(mid.drop_last() =~= pieces(a).drop_last());
    }
}

proof fn lemma_trimmed_tag(t: Seq<char>)
    requires
        is_tag(t),
    ensures
        trimmed(t) == t,
{
}

/// Tags written with commas between them are read back as they are.
pub proof fn law_joined_tags_are_parsed(tags: Seq<Seq<char>>)
    requires
        forall|i: int| 0 <= i < tags.len() ==> is_tag(#[trigger] tags[i]),
    ensures
        tags_in(with_commas(tags)) == tags,
    decreases tags.len(),
{
    reveal_with_fuel(trimmed_texts, 2);
    reveal_with_fuel(pieces, 2);
    if tags.len() == 0 {
        let none: Seq<Seq<char>> = seq![seq![]];
        assert(pieces(with_commas(tags)) == none);
        assert(none.drop_last() =~= seq![]);
        assert(trimmed(seq![]) =~= seq![]);
        assert(tags_in(with_commas(tags)) =~= tags);
    } else {
        let last = tags.last();
        assert(is_tag(tags[tags.len() - 1]));
        lemma_trimmed_tag(last);
        if tags.len() == 1 {
            let empty: Seq<char> = seq![];
            lemma_pieces_append(empty, last);
            assert(empty + last =~= last);
            assert(pieces(empty).drop_last() =~= seq![]);
            assert(pieces(last) =~= seq![last]);
            assert(pieces(last).drop_last() =~= seq![]);
            assert(tags_in(last) =~= tags);
        } else {
            let shorter = tags.drop_last();
            assert forall|i: int| 0 <= i < shorter.len() implies is_tag(#[trigger] shorter[i]) by {
                assert(shorter[i] == tags[i]);
            }
            law_joined_tags_are_parsed(shorter);
            let a = with_commas(shorter);
            let b = a.push(',');
            assert(b.drop_last() =~= a);
            assert(pieces(b) == pieces(a).push(seq![]));
            lemma_pieces_append(b, last);
            assert(pieces(b).drop_last() =~= pieces(a));
            assert(pieces(b).last() + last =~= last);
            assert(pieces(b + last) == pieces(a).push(last));
            assert(pieces(a).push(last).drop_last() =~= pieces(a));
            assert(tags_in(b + last) =~= shorter.push(last));
            assert(shorter.push(last) =~= tags);
        }
    }
}

proof fn lemma_encode_push(text: Seq<char>)
    ensures
        encode_utf8(text.push('\n')) == encode_utf8(text).push(10),
    decreases text.len(),
{
    reveal_with_fuel(encode_utf8, 2);
    let longer = text.push('\n');
    if text.len() == 0 {
        vstd::utf8::is_ascii_chars_encode_utf8(longer);
        assert(encode_utf8(longer) =~= seq![10u8]);
    } else {
        lemma_encode_push(text.drop_first());
        assert(longer.drop_first() =~= text.drop_first().push('\n'));
        assert(encode_utf8(longer) =~= encode_utf8(text).push(10));
    }
}

/// A posted JSON document is stored pretty-printed, with a line feed at the end
/// and nothing else added.
pub proof fn law_saved_json_ends_the_line(body: Seq<u8>, pretty: Seq<char>)
    ensures
        saved_of(body, Some(pretty)) == encode_utf8(pretty).push(10),
{
    lemma_encode_push(pretty);
}

/// The viewer lists the file of a new dump and finds its sidecar, and lists
/// neither that nor the files under their temporary names.
pub proof fn law_new_dumps_are_listed(id: Seq<char>)
    requires
        is_id(id),
    ensures
        names_dump(Some(dump_name(id))),
        !names_sidecar(Some(dump_name(id))),
        sidecar_of(dump_name(id)) == Some(sidecar_name(id)),
        !names_dump(Some(sidecar_name(id))),
        !names_dump(Some(temp_name(dump_name(id)))),
        !names_dump(Some(temp_name(sidecar_name(id)))),
{
    reveal_strlit(".metadata");
    if has_suffix(id, ".metadata"@) {
        assert(id.skip(id.len() - 9)[0] == '.');
        assert(is_base32(id[id.len() - 9]));
    }
    crate::names::law_dumps_are_listed(id);
    crate::names::law_sidecar_is_found(id);
    crate::names::law_sidecars_are_hidden(id);
    crate::names::law_temporary_files_are_hidden(dump_name(id));
    crate::names::law_temporary_files_are_hidden(sidecar_name(id));
}

/// The embedded viewer reads from the sidecar what the server was sent: the
/// title, the tags and the time to the millisecond, once that is past the times
/// that are taken for seconds.
pub proof fn law_posted_metadata_is_read_back(
    text: Seq<char>,
    title: Option<Seq<u8>>,
    tags: Option<Seq<u8>>,
    millis: i64,
)
    requires
        is_sidecar_text(text, title, tags, millis),
        millis > crate::metadata::SECONDS_LIMIT,
    ensures
        metadata_of(text, StampUnit::Millis) == (MetadataView {
            title: title_of_header(title),
            tags: tags_of_header(tags),
            timestamp: Some(millis),
        }),
{
    crate::metadata::law_large_timestamps_are_milliseconds(millis);
}

/// A scan by the embedded viewer lists a posted dump with the title and the tags
/// that came with it, at the second it came.
pub proof fn law_posted_dumps_are_listed(
    d: DumpView,
    f: FileFacts,
    title: Option<Seq<u8>>,
    tags: Option<Seq<u8>>,
    millis: i64,
)
    requires
        millis > crate::metadata::SECONDS_LIMIT,
        f.metadata@ == posted_metadata(title, tags, millis, StampUnit::Millis),
        shown_by_scan(d, f, StampUnit::Millis),
        showable(millis as int / 1000),
    ensures
        d.title == title_of_header(title),
        d.tags == tags_of_header(tags),
        is_stamp(d.time, millis as int / 1000),
{
    crate::metadata::law_large_timestamps_are_milliseconds(millis);
    let time = stamp_time(millis as int, StampUnit::Millis);
    assert(time == millis * 1_000_000);
    assert(second_of(time) == millis as int / 1000) by (nonlinear_arith)
        requires
            time == millis * 1_000_000,
            second_of(time) == time / 1_000_000_000,
    ;
    assert(f.metadata@.timestamp == f.metadata.timestamp);
}

/// The preview of a posted JSON document shows the text that was stored, as long
/// as all of it is read.
pub proof fn law_stored_json_is_previewed(
    viewer: Viewer,
    body: Seq<u8>,
    pretty: Seq<char>,
    stored: Vec<u8>,
)
    requires
        stored@ == saved_of(body, Some(pretty)),
        stored@.len() <= PREVIEW_LIMIT,
    ensures
        preview_text(viewer, Reading::Bytes(stored)) == pretty.push('\n'),
{
    vstd::utf8::encode_utf8_valid_utf8(pretty.push('\n'));
    vstd::utf8::encode_utf8_decode_utf8(pretty.push('\n'));
}

/// The answer once the steps from `stage` on succeeded or failed as given.
pub open spec fn answer_from(stage: Stage, directory: bool, dump: bool, sidecar: bool) -> Answer
    decreases
            match stage {
                Stage::Directory => 2int,
                Stage::Dump => 1,
                Stage::Sidecar => 0,
            },
{
    let succeeded = match stage {
        Stage::Directory => directory,
        Stage::Dump => dump,
        Stage::Sidecar => sidecar,
    };
    match next_of(stage, succeeded) {
        Next::Go(next) => answer_from(next, directory, dump, sidecar),
        Next::Answer(answer) => answer,
    }
}

/// A post is answered with success exactly if its dump was written, whatever
/// became of the sidecar; the answer to any other names the step that failed.
pub proof fn law_answer_tells_whether_stored(directory: bool, dump: bool, sidecar: bool)
    ensures
        answer_from(Stage::Directory, directory, dump, sidecar) == if !directory {
            Answer::NoDirectory
        } else if !dump {
            Answer::NotWritten
        } else {
            Answer::Stored
        },
        answer_from(Stage::Directory, directory, dump, sidecar).status_code() == 200 <==> directory
            && dump,
{
    reveal_with_fuel(answer_from, 3);
}

/// The byte is a visible ASCII character, a space or a tab.
pub open spec fn visible_bytes(bytes: Seq<u8>) -> bool {
    forall|i: int| 0 <= i < bytes.len() ==> 32 <= #[trigger] bytes[i] < 127 || bytes[i] == 9
}

/// The title in the sidecar is the whole value of the header, character by
/// character, where that can be read; else it is empty.
pub proof fn law_title_is_the_header(
    text: Seq<char>,
    title: Option<Seq<u8>>,
    tags: Option<Seq<u8>>,
    millis: i64,
    unit: StampUnit,
)
    requires
        is_sidecar_text(text, title, tags, millis),
    ensures
        title matches Some(bytes) ==> visible_bytes(bytes) ==> {
            let read = metadata_of(text, unit).title;
            &&& read.len() == bytes.len()
            &&& forall|i: int| 0 <= i < read.len() ==> #[trigger] read[i] as int == bytes[i]
        },
        title matches Some(bytes) ==> !visible_bytes(bytes) ==> metadata_of(text, unit).title.len()
            == 0,
        title is None ==> metadata_of(text, unit).title.len() == 0,
{
    reveal_strlit("");
    if let Some(bytes) = title {
        if visible_bytes(bytes) {
            assert forall|i: int| 0 <= i < bytes.len() implies is_header_byte(
                #[trigger] bytes[i],
            ) by {}
        } else {
            let i = choose|i: int|
                0 <= i < bytes.len() && !(32 <= #[trigger] bytes[i] < 127 || bytes[i] == 9);
            assert(!is_header_byte(bytes[i]));
        }
    }
}

/// Tags that were sent with commas between them are all in the sidecar, in order
/// and unchanged; without the header, or where it cannot be read, there are none.
pub proof fn law_sent_tags_are_in_the_sidecar(
    text: Seq<char>,
    title: Option<Seq<u8>>,
    tags: Option<Seq<u8>>,
    millis: i64,
    unit: StampUnit,
    sent: Seq<Seq<char>>,
)
    requires
        is_sidecar_text(text, title, tags, millis),
        forall|i: int| 0 <= i < sent.len() ==> is_tag(#[trigger] sent[i]),
    ensures
        tags matches Some(bytes) ==> visible_bytes(bytes) && bytes.len() == with_commas(sent).len()
            && (forall|i: int|
            0 <= i < bytes.len() ==> #[trigger] bytes[i] == with_commas(sent)[i] as int)
            ==> metadata_of(text, unit).tags == sent,
        tags matches Some(bytes) ==> !visible_bytes(bytes) ==> metadata_of(text, unit).tags.len()
            == 0,
        tags is None ==> metadata_of(text, unit).tags.len() == 0,
{
    law_joined_tags_are_parsed(sent);
    if let Some(bytes) = tags {
        if visible_bytes(bytes) {
            assert forall|i: int| 0 <= i < bytes.len() implies is_header_byte(
                #[trigger] bytes[i],
            ) by {}
            let read = header_of(bytes)->0;
            if bytes.len() == with_commas(sent).len() && (forall|i: int|
                0 <= i < bytes.len() ==> #[trigger] bytes[i] == with_commas(sent)[i] as int) {
                assert forall|i: int| 0 <= i < read.len() implies read[i] == with_commas(
                    sent,
                )[i] by {
                    assert(bytes[i] == with_commas(sent)[i] as int);
                }
                assert(read =~= with_commas(sent));
            }
        } else {
            let i = choose|i: int|
                0 <= i < bytes.len() && !(32 <= #[trigger] bytes[i] < 127 || bytes[i] == 9);
            assert(!is_header_byte(bytes[i]));
        }
    }
}

proof fn lemma_pieces_concat(a: Seq<char>, b: Seq<char>)
    ensures
        pieces(a.push(',') + b) == pieces(a) + pieces(b),
    decreases b.len(),
{
    lemma_pieces(a);
    lemma_pieces(b);
    if b.len() == 0 {
        assert(a.push(',') + b =~= a.push(','));
        assert(a.push(',').drop_last() =~= a);
        assert(pieces(a) + pieces(b) =~= pieces(a).push(seq![]));
    } else {
        let c = b.drop_last();
        lemma_pieces(c);
        lemma_pieces_concat(a, c);
        assert((a.push(',') + b).drop_last() =~= a.push(',') + c);
        assert((a.push(',') + b).last() == b.last());
        let before = pieces(a) + pieces(c);
        assert(before.last() == pieces(c).last());
        assert(before.drop_last() =~= pieces(a) + pieces(c).drop_last());
        if b.last() == ',' {
            assert(before.push(seq![]) =~= pieces(a) + pieces(c).push(seq![]));
        } else {
            let longer = pieces(c).last().push(b.last());
            assert(before.drop_last().push(longer) =~= pieces(a) + pieces(c).drop_last().push(
                longer,
            ));
        }
    }
}

proof fn lemma_trimmed_texts_concat(a: Seq<Seq<char>>, b: Seq<Seq<char>>)
    ensures
        trimmed_texts(a + b) == trimmed_texts(a) + trimmed_texts(b),
    decreases b.len(),
{
    if b.len() == 0 {
        assert(a + b =~= a);
        assert(trimmed_texts(a) + trimmed_texts(b) =~= trimmed_texts(a));
    } else {
        lemma_trimmed_texts_concat(a, b.drop_last());
        assert((a + b).drop_last() =~= a + b.drop_last());
        assert(trimmed_texts(a + b) =~= trimmed_texts(a) + trimmed_texts(b));
    }
}

/// A comma keeps tags apart: what stands before it and what stands behind it are
/// read each by itself.
pub proof fn law_commas_keep_tags_apart(a: Seq<char>, b: Seq<char>)
    ensures
        tags_in(a.push(',') + b) == tags_in(a) + tags_in(b),
{
    lemma_pieces_concat(a, b);
    lemma_trimmed_texts_concat(pieces(a), pieces(b));
}

proof fn lemma_skip_spaces(left: Seq<char>, t: Seq<char>)
    requires
        forall|i: int| 0 <= i < left.len() ==> is_space(#[trigger] left[i]),
        t.len() > 0 ==> !is_space(t[0]),
    ensures
        trimmed_start(left + t) == t,
    decreases left.len(),
{
    if left.len() == 0 {
        assert(left + t =~= t);
    } else {
        assert(is_space(left[0]));
        assert((left + t).skip(1) =~= left.skip(1) + t);
        lemma_skip_spaces(left.skip(1), t);
    }
}

proof fn lemma_drop_spaces(t: Seq<char>, right: Seq<char>)
    requires
        forall|i: int| 0 <= i < right.len() ==> is_space(#[trigger] right[i]),
        t.len() > 0 ==> !is_space(t.last()),
    ensures
        trimmed_end(t + right) == t,
    decreases right.len(),
{
    if right.len() == 0 {
        assert(t + right =~= t);
    } else {
        assert(is_space(right[right.len() - 1]));
        assert((t + right).drop_last() =~= t + right.drop_last());
        lemma_drop_spaces(t, right.drop_last());
    }
}

/// White space around a tag does not count, and white space alone is no tag.
pub proof fn law_white_space_around_tags(left: Seq<char>, t: Seq<char>, right: Seq<char>)
    requires
        forall|i: int| 0 <= i < left.len() ==> is_space(#[trigger] left[i]),
        forall|i: int| 0 <= i < right.len() ==> is_space(#[trigger] right[i]),
        is_tag(t) || t.len() == 0,
    ensures
        is_tag(t) ==> tags_in(left + t + right) == seq![t],
        t.len() == 0 ==> tags_in(left + t + right).len() == 0,
{
    let s = left + t + right;
    assert(!s.contains(',')) by {
        if s.contains(',') {
            let k = choose|k: int| 0 <= k < s.len() && s[k] == ',';
            if k < left.len() {
                assert(is_space(left[k]));
            } else if k < left.len() + t.len() {
                assert(t[k - left.len()] == ',');
            } else {
                assert(is_space(right[k - left.len() - t.len()]));
            }
        }
    }
    let empty: Seq<char> = seq![];
    lemma_pieces_append(empty, s);
    assert(empty + s =~= s);
    assert(pieces(empty).drop_last() =~= seq![]);
    assert(pieces(s) =~= seq![s]);
    assert(pieces(s).drop_last() =~= seq![]);
    reveal_with_fuel(trimmed_texts, 2);
    if t.len() == 0 {
        assert(s =~= (left + right) + empty);
        assert forall|i: int| 0 <= i < (left + right).len() implies is_space(
            #[trigger] (left + right)[i],
        ) by {
            if i < left.len() {
                assert(is_space(left[i]));
            } else {
                assert(is_space(right[i - left.len()]));
            }
        }
        lemma_skip_spaces(left + right, empty);
    } else {
        assert(s =~= left + (t + right));
        assert((t + right)[0] == t[0]);
        lemma_skip_spaces(left, t + right);
        lemma_drop_spaces(t, right);
        assert(tags_in(s) =~= seq![t]);
    }
}

/// What is no JSON document is stored as it came.
pub proof fn law_other_bodies_are_stored_as_they_came(body: Seq<u8>)
    ensures
        saved_of(body, None) == body,
{
}

/// The files of a dump are four different ones, and no other dump has any of
/// them: the name of each gives the identifier away.
pub proof fn law_files_belong_to_one_dump(files: &DumpFiles, id: Seq<char>, other: Seq<char>)
    requires
        files.belong_to(id),
    ensures
        files.dump@ != files.sidecar@,
        files.dump@ != files.dump_temp@,
        files.sidecar@ != files.sidecar_temp@,
        files.dump_temp@ != files.sidecar_temp@,
        files.dump@.take(id.len() as int) == id,
        files.sidecar@.take(id.len() as int) == id,
        files.belong_to(other) ==> other == id,
{
    reveal_strlit(".json");
    reveal_strlit(".metadata.json");
    reveal_strlit(".tmp");
    assert(files.dump@.len() == id.len() + 5);
    assert(files.sidecar@.len() == id.len() + 14);
    assert(files.dump_temp@.len() == id.len() + 9);
    assert(files.sidecar_temp@.len() == id.len() + 18);
    assert(files.dump@.take(id.len() as int) =~= id);
    assert(files.sidecar@.take(id.len() as int) =~= id);
    if files.belong_to(other) {
        assert(files.dump@.len() == other.len() + 5);
        assert(files.dump@.take(other.len() as int) =~= other);
    }
}

/// A dump that was not stored is answered as an error of the server, with a text
/// that says which step failed.
pub proof fn law_failures_are_answered(directory: bool, dump: bool, sidecar: bool)
    requires
        !directory || !dump,
    ensures
        ({
            let answer = answer_from(Stage::Directory, directory, dump, sidecar);
            &&& answer.status_code() == 500
            &&& !directory ==> answer.body() == "failed to create dumps dir"@
            &&& directory ==> answer.body() == "write failed"@
        }),
{
    reveal_with_fuel(answer_from, 3);
}

/// The timestamp in the sidecar is the time of the post, in the unit it is read
/// in.
pub proof fn law_sidecar_holds_the_time(
    text: Seq<char>,
    title: Option<Seq<u8>>,
    tags: Option<Seq<u8>>,
    millis: i64,
)
    requires
        is_sidecar_text(text, title, tags, millis),
        millis > 3_000_000_000,
    ensures
        metadata_of(text, StampUnit::Millis).timestamp == Some(millis),
        metadata_of(text, StampUnit::Seconds).timestamp == Some((millis as int / 1000) as i64),
{
}

/// What a post leaves behind, as the functions give it: the sidecar's title is
/// the header, character by character, and the time is that of the post.
pub proof fn law_sidecar_of_a_post(
    title: &Option<Vec<u8>>,
    tags: &Option<Vec<u8>>,
    millis: i64,
    text: String,
)
    requires
        call_ensures(sidecar_text, (title, tags, millis), text),
        millis > 3_000_000_000,
    ensures
        metadata_of(text@, StampUnit::Millis).timestamp == Some(millis),
        title matches Some(bytes) ==> visible_bytes(bytes@) ==> {
            let read = metadata_of(text@, StampUnit::Millis).title;
            &&& read.len() == bytes@.len()
            &&& forall|i: int| 0 <= i < read.len() ==> #[trigger] read[i] as int == bytes@[i]
        },
        tags is None ==> metadata_of(text@, StampUnit::Millis).tags.len() == 0,
{
    let (t, g) = (bytes_view(*title), bytes_view(*tags));
    law_sidecar_holds_the_time(text@, t, g, millis);
    law_title_is_the_header(text@, t, g, millis, StampUnit::Millis);
    law_sent_tags_are_in_the_sidecar(text@, t, g, millis, StampUnit::Millis, seq![]);
}

/// The tags that are read from a header are those between its commas.
pub proof fn law_parsed_header(
    header: &str,
    a: &str,
    b: &str,
    tags: Vec<String>,
    first: Vec<String>,
    second: Vec<String>,
)
    requires
        header@ == a@ + seq![','] + b@,
        call_ensures(parse_tags, (header,), tags),
        call_ensures(parse_tags, (a,), first),
        call_ensures(parse_tags, (b,), second),
    ensures
        views(tags@) == views(first@) + views(second@),
{
    assert(header@ =~= a@.push(',') + b@);
    law_commas_keep_tags_apart(a@, b@);
}

/// Of the characters that a header can hold, spaces and tabs are white space and
/// no others.
pub proof fn law_spaces_in_headers(b: u8)
    requires
        is_header_byte(b),
    ensures
        is_space(b as char) <==> b == 32 || b == 9,
        b == 9 || 32 <= b <= 126,
{
}

/// Only a stored dump is answered with success, and then with `ok`; every other
/// answer is a server error that says what failed.
pub proof fn law_answers_in_words(answer: Answer, code: u16, text: &'static str)
    requires
        call_ensures(Answer::status, (answer,), code),
        call_ensures(Answer::text, (answer,), text),
    ensures
        code == 200 || code == 500,
        code == 200 <==> answer == Answer::Stored,
        code == 200 <==> text@ == seq!['o', 'k'],
        answer == Answer::NoDirectory ==> text@ == "failed to create dumps dir"@,
        answer == Answer::NotWritten ==> text@ == "write failed"@,
{
    reveal_strlit("ok");
    reveal_strlit("failed to create dumps dir");
    reveal_strlit("write failed");
    assert("ok"@ =~= seq!['o', 'k']);
}

} // verus!
