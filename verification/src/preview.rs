//! The text of the preview.

use vstd::prelude::*;
use vstd::utf8::{decode_utf8, encode_utf8, valid_utf8};
use crate::browser::Viewer;
use crate::text::{join2, text_view};

verus! {

/// How much of a dump is read for the preview, in bytes.
pub const PREVIEW_LIMIT: usize = 65536;

/// What came of reading a dump for the preview.
#[derive(Debug)]
pub enum Reading {
    /// The bytes of the file, or the first ones of them.
    Bytes(Vec<u8>),
    /// The file could not be read; why.
    Failed(String),
}

/// The first bytes of a file, as many as the preview takes.
pub open spec fn head_of(bytes: Seq<u8>) -> Seq<u8> {
    if bytes.len() <= PREVIEW_LIMIT {
        bytes
    } else {
        bytes.take(PREVIEW_LIMIT as int)
    }
}

/// What is shown where a dump could not be read.
pub open spec fn failure_text(viewer: Viewer, why: Seq<char>) -> Seq<char> {
    match viewer {
        Viewer::Embedded => ""@,
        Viewer::Standalone => "failed to read preview: "@ + why,
    }
}

/// What is shown of a dump.
pub open spec fn preview_text(viewer: Viewer, reading: Reading) -> Seq<char> {
    match reading {
        Reading::Bytes(bytes) => if valid_utf8(head_of(bytes@)) {
            decode_utf8(head_of(bytes@))
        } else {
            failure_text(viewer, "stream did not contain valid UTF-8"@)
        },
        Reading::Failed(why) => failure_text(viewer, why@),
    }
}

/// Turns bytes into text with `String::from_utf8`. There is a text exactly for
/// valid UTF-8, and the bytes are its encoding.
#[verifier::external_body]
pub(crate) fn text_of_bytes(bytes: Vec<u8>) -> (text: Option<String>)
    ensures
        text is Some <==> valid_utf8(bytes@),
        text matches Some(t) ==> encode_utf8(t@) == bytes@,
{
    String::from_utf8(bytes).ok()
}

/// Shortens `bytes` to what the preview takes, and reads it as text.
pub(crate) fn head_text(bytes: Vec<u8>) -> (text: Option<String>)
    ensures
        text matches Some(t) ==> encode_utf8(t@) == head_of(bytes@),
        text_view(text) == if valid_utf8(head_of(bytes@)) {
            Some(decode_utf8(head_of(bytes@)))
        } else {
            None::<Seq<char>>
        },
{
    let ghost all = bytes@;
    let mut head = bytes;
    if head.len() > PREVIEW_LIMIT {
        head.truncate(PREVIEW_LIMIT);
        assert(head@ =~= all.take(PREVIEW_LIMIT as int));
    }
    let text = text_of_bytes(head);
    proof {
        if text is Some {
            vstd::utf8::encode_utf8_decode_utf8(text->0@);
        }
    }
    text
}

fn failed(viewer: Viewer, why: &str) -> (text: String)
    ensures
        text@ == failure_text(viewer, why@),
{
    proof {
        reveal_strlit("");
    }
    match viewer {
        Viewer::Embedded => join2("", ""),
        Viewer::Standalone => join2("failed to read preview: ", why),
    }
}

/// What is shown of a dump: its first bytes as text. Bytes that are no text
/// count as a failure.
pub fn read_preview(viewer: Viewer, reading: Reading) -> (text: String)
    ensures
        text@ == preview_text(viewer, reading),
{
    match reading {
        Reading::Bytes(bytes) => match head_text(bytes) {
            Some(text) => text,
            None => failed(viewer, "stream did not contain valid UTF-8"),
        },
        Reading::Failed(why) => failed(viewer, &why),
    }
}

/// What is shown where there is no dump to show.
pub fn empty_preview(viewer: Viewer) -> (text: String)
    ensures
        text@ == match viewer {
            Viewer::Embedded => ""@,
            Viewer::Standalone => "(no preview available)"@,
        },
{
    proof {
        reveal_strlit("");
    }
    match viewer {
        Viewer::Embedded => join2("", ""),
        Viewer::Standalone => join2("(no preview available)", ""),
    }
}

// ---- laws ----

/// A text of at most 65536 bytes is previewed whole and as it is; of a longer
/// one, its first 65536 bytes. Both viewers show the same.
pub proof fn law_preview_shows_the_file(viewer: Viewer, bytes: Vec<u8>)
    ensures
        bytes@.len() <= 65536 && valid_utf8(bytes@) ==> encode_utf8(
            preview_text(viewer, Reading::Bytes(bytes)),
        ) == bytes@,
        bytes@.len() > 65536 && valid_utf8(bytes@.take(65536)) ==> encode_utf8(
            preview_text(viewer, Reading::Bytes(bytes)),
        ) == bytes@.take(65536),
{
    if valid_utf8(head_of(bytes@)) {
        vstd::utf8::decode_utf8_encode_utf8(head_of(bytes@));
    }
}

/// Where a dump cannot be read, the embedded viewer shows nothing, and the other
/// one ends its preview with why.
pub proof fn law_failures_are_told(why: String)
    ensures
        preview_text(Viewer::Embedded, Reading::Failed(why)).len() == 0,
        ({
            let text = preview_text(Viewer::Standalone, Reading::Failed(why));
            crate::text::has_suffix(text, why@) && text.len() > why@.len()
        }),
{
    reveal_strlit("");
    reveal_strlit("failed to read preview: ");
    let text = preview_text(Viewer::Standalone, Reading::Failed(why));
    assert(text.skip(text.len() - why@.len()) =~= why@);
}

/// Bytes that are no text fail like a file that cannot be read.
pub proof fn law_no_text_no_preview(viewer: Viewer, bytes: Vec<u8>, why: String)
    requires
        bytes@.len() <= 65536,
        !valid_utf8(bytes@),
        why@ == "stream did not contain valid UTF-8"@,
    ensures
        preview_text(viewer, Reading::Bytes(bytes)) == preview_text(viewer, Reading::Failed(why)),
{
}

/// With no dump to show the embedded viewer shows nothing and the other one a
/// note.
pub proof fn law_empty_previews(viewer: Viewer, text: String)
    requires
        call_ensures(empty_preview, (viewer,), text),
    ensures
        viewer == Viewer::Embedded <==> text@.len() == 0,
{
    reveal_strlit("");
    reveal_strlit("(no preview available)");
}

/// The preview that is shown of a text of at most 65536 bytes is that text.
pub proof fn law_shown_preview(viewer: Viewer, bytes: Vec<u8>, text: String)
    requires
        call_ensures(read_preview, (viewer, Reading::Bytes(bytes)), text),
        bytes@.len() <= 65536,
        valid_utf8(bytes@),
    ensures
        encode_utf8(text@) == bytes@,
{
    law_preview_shows_the_file(viewer, bytes);
}

} // verus!
