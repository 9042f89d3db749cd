//! The sidecar of a dump: title, tags and timestamp, as a JSON object.

use vstd::prelude::*;
use crate::json::{
    field_view, json_field, json_member, json_object, members_view, object_text, Field, FieldView,
    NewField,
};
use crate::natural::{digits_value, is_digit};
use crate::text::{chars_of, copy_strings, text_view, views};

verus! {

/// What the sidecar of a dump says. A dump without a sidecar has no title, no
/// tags and no timestamp.
#[derive(Debug)]
pub struct Metadata {
    pub title: String,
    pub tags: Vec<String>,
    pub timestamp: Option<i64>,
}

/// The value of [`Metadata`].
#[verifier::ext_equal]
pub struct MetadataView {
    pub title: Seq<char>,
    pub tags: Seq<Seq<char>>,
    pub timestamp: Option<i64>,
}

impl View for Metadata {
    type V = MetadataView;

    open spec fn view(&self) -> MetadataView {
        MetadataView {
            title: self.title@,
            tags: views(self.tags@),
            timestamp: self.timestamp,
        }
    }
}

/// The unit that timestamps are brought to when they are read.
#[derive(Debug, Clone, Copy, PartialEq, Eq, Structural)]
pub enum StampUnit {
    Millis,
    Seconds,
}

/// Up to this size a timestamp is taken for seconds, beyond it for milliseconds.
pub const SECONDS_LIMIT: i64 = 3_000_000_000;

/// `s` consists of decimal digits only, at least one.
pub open spec fn is_numeral(s: Seq<char>) -> bool {
    s.len() > 0 && forall|i: int| 0 <= i < s.len() ==> is_digit(#[trigger] s[i])
}

/// The integer that a text denotes: an optional sign and at least one decimal
/// digit, with a value that fits 64 bits.
pub open spec fn parsed_int(s: Seq<char>) -> Option<i64> {
    let signed = s.len() > 0 && (s[0] == '-' || s[0] == '+');
    let digits = if signed {
        s.skip(1)
    } else {
        s
    };
    let value: int = if signed && s[0] == '-' {
        -digits_value(digits)
    } else {
        digits_value(digits) as int
    };
    if is_numeral(digits) && i64::MIN <= value <= i64::MAX {
        Some(value as i64)
    } else {
        None
    }
}

/// An unsigned number as a signed one; the largest where it does not fit.
pub open spec fn clamped(n: u64) -> i64 {
    if n <= i64::MAX {
        n as i64
    } else {
        i64::MAX
    }
}

/// The timestamp as it stands in the sidecar: a number, or a numeral in a
/// string.
pub open spec fn raw_timestamp(field: Option<FieldView>) -> Option<i64> {
    match field {
        Some(FieldView::Number(Some(n), _)) => Some(n),
        Some(FieldView::Number(None, Some(u))) => Some(clamped(u)),
        Some(FieldView::Text(s)) => parsed_int(s),
        _ => None,
    }
}

/// Division that drops the fraction, toward zero.
pub open spec fn divide_toward_zero(n: int, d: int) -> int {
    if n >= 0 {
        n / d
    } else {
        -((-n) / d)
    }
}

/// A timestamp brought to `unit`: a small one counts seconds, a large one
/// milliseconds.
pub open spec fn in_unit(t: i64, unit: StampUnit) -> i64 {
    let small = -SECONDS_LIMIT <= t <= SECONDS_LIMIT;
    match unit {
        StampUnit::Millis => if small {
            (t * 1000) as i64
        } else {
            t
        },
        StampUnit::Seconds => if small {
            t
        } else {
            divide_toward_zero(t as int, 1000) as i64
        },
    }
}

pub open spec fn title_of(field: Option<FieldView>) -> Seq<char> {
    match field {
        Some(FieldView::Text(s)) => s,
        _ => seq![],
    }
}

/// The strings among the items of a list, in order.
pub open spec fn strings_of(items: Seq<Option<Seq<char>>>) -> Seq<Seq<char>>
    decreases items.len(),
{
    if items.len() == 0 {
        seq![]
    } else {
        match items.last() {
            Some(s) => strings_of(items.drop_last()).push(s),
            None => strings_of(items.drop_last()),
        }
    }
}

pub open spec fn tags_of(field: Option<FieldView>) -> Seq<Seq<char>> {
    match field {
        Some(FieldView::List(items)) => strings_of(items),
        _ => seq![],
    }
}

/// What three members of a sidecar say.
pub open spec fn metadata_of_fields(
    title: Option<FieldView>,
    tags: Option<FieldView>,
    timestamp: Option<FieldView>,
    unit: StampUnit,
) -> MetadataView {
    MetadataView {
        title: title_of(title),
        tags: tags_of(tags),
        timestamp: match raw_timestamp(timestamp) {
            Some(t) => Some(in_unit(t, unit)),
            None => None,
        },
    }
}

/// What the text of a sidecar says.
pub open spec fn metadata_of(text: Seq<char>, unit: StampUnit) -> MetadataView {
    metadata_of_fields(
        json_member(text, "title"@),
        json_member(text, "tags"@),
        json_member(text, "timestamp"@),
        unit,
    )
}

/// The one timestamp whose size has no 64-bit value.
pub open spec fn unreadable_timestamp(field: Option<FieldView>) -> bool {
    raw_timestamp(field) == Some(i64::MIN)
}

/// Reads an integer as [`parsed_int`] describes it.
pub fn parse_int(s: &str) -> (n: Option<i64>)
    ensures
        n == parsed_int(s@),
{
    let chars = chars_of(s);
    let signed = chars.len() > 0 && (chars[0] == '-' || chars[0] == '+');
    let negative = signed && chars[0] == '-';
    let start: usize = if signed {
        1
    } else {
        0
    };
    let ghost digits = if signed {
        s@.skip(1)
    } else {
        s@
    };
    if chars.len() == start {
        return None;
    }
    // None once the value is beyond any 64-bit integer.
    let mut value: Option<u128> = Some(0);
    let mut i: usize = start;
    proof {
        assert(digits.take(0) == Seq::<char>::empty());
    }
    while i < chars.len()
        invariant
            chars@ == s@,
            signed == (s@.len() > 0 && (s@[0] == '-' || s@[0] == '+')),
            start == if signed {
                1int
            } else {
                0
            },
            start <= i <= chars@.len(),
            digits == s@.skip(start as int),
            forall|j: int| 0 <= j < i - start ==> is_digit(#[trigger] digits[j]),
            match value {
                Some(v) => v == digits_value(digits.take(i - start)) && v <= 0xffff_ffff_ffff_ffff,
                None => digits_value(digits.take(i - start)) > 0xffff_ffff_ffff_ffff,
            },
        decreases chars@.len() - i,
    {
        let c = chars[i];
        let ghost more = digits.take(i - start + 1);
        proof {
            assert(digits[i - start] == c);
            assert(more.drop_last() == digits.take(i - start));
            assert(more.last() == c);
        }
        if !('0' <= c && c <= '9') {
            assert(!is_digit(digits[i - start]));
            assert(!signed ==> s@.skip(0) == s@);
            return None;
        }
        let d: u128 = (c as u32 - 48) as u128;
        value = match value {
            Some(v) => if 10 * v + d <= 0xffff_ffff_ffff_ffff {
                Some(10 * v + d)
            } else {
                None
            },
            None => None,
        };
        i = i + 1;
    }
    assert(digits.take(i - start) == digits);
    match value {
        Some(v) => if negative && v == 0x8000_0000_0000_0000 {
            Some(i64::MIN)
        } else if v > 0x7fff_ffff_ffff_ffff {
            None
        } else if negative {
            Some(-(v as i64))
        } else {
            Some(v as i64)
        },
        None => None,
    }
}

fn read_timestamp(field: &Option<Field>) -> (t: Option<i64>)
    ensures
        t == raw_timestamp(field_view(*field)),
{
    match field {
        Some(Field::Number(Some(n), _)) => Some(*n),
        Some(Field::Number(None, Some(u))) => {
            let u: u64 = *u;
            if u <= 0x7fff_ffff_ffff_ffff {
                Some(u as i64)
            } else {
                Some(i64::MAX)
            }
        },
        Some(Field::Text(s)) => parse_int(s),
        _ => None,
    }
}

/// Brings a timestamp to `unit`.
pub fn normalize_timestamp(t: i64, unit: StampUnit) -> (n: i64)
    requires
        t != i64::MIN,
    ensures
        n == in_unit(t, unit),
{
    let small = -SECONDS_LIMIT <= t && t <= SECONDS_LIMIT;
    match unit {
        StampUnit::Millis => if small {
            t * 1000
        } else {
            t
        },
        StampUnit::Seconds => if small {
            t
        } else if t >= 0 {
            t / 1000
        } else {
            -((-t) / 1000)
        },
    }
}

/// The metadata that three members of a sidecar make up. A member of another
/// kind than expected counts as absent, and so do the items of the tag list
/// that are not strings.
pub fn metadata_from(
    title: Option<Field>,
    tags: Option<Field>,
    timestamp: Option<Field>,
    unit: StampUnit,
) -> (m: Metadata)
    requires
        !unreadable_timestamp(field_view(timestamp)),
    ensures
        m@ == metadata_of_fields(
            field_view(title),
            field_view(tags),
            field_view(timestamp),
            unit,
        ),
{
    let title_text = match title {
        Some(Field::Text(s)) => s,
        _ => String::new(),
    };
    let mut tag_list: Vec<String> = Vec::new();
    if let Some(Field::List(items)) = &tags {
        let ghost seen = items@.map_values(|s: Option<String>| text_view(s));
        let mut i: usize = 0;
        assert(seen.take(0) == Seq::<Option<Seq<char>>>::empty());
        while i < items.len()
            invariant
                i <= items@.len(),
                seen == items@.map_values(|s: Option<String>| text_view(s)),
                views(tag_list@) == strings_of(seen.take(i as int)),
            decreases items@.len() - i,
        {
            let ghost before = views(tag_list@);
            assert(seen.take(i + 1).drop_last() =~= seen.take(i as int));
            if let Some(s) = &items[i] {
                tag_list.push(s.clone());
                assert(views(tag_list@) =~= before.push(s@));
            }
            i = i + 1;
        }
        assert(seen.take(items@.len() as int) == seen);
    }
    let stamp: Option<i64> = match read_timestamp(&timestamp) {
        Some(t) => Some(normalize_timestamp(t, unit)),
        None => None,
    };
    let m = Metadata { title: title_text, tags: tag_list, timestamp: stamp };
    assert(m@ =~= metadata_of_fields(field_view(title), field_view(tags), field_view(timestamp), unit));
    m
}

/// Reads the text of a sidecar. Text that is not a JSON object counts as an
/// empty one.
pub fn read_metadata(text: &str, unit: StampUnit) -> (m: Metadata)
    requires
        !unreadable_timestamp(json_member(text@, "timestamp"@)),
    ensures
        m@ == metadata_of(text@, unit),
{
    metadata_from(
        json_field(text, "title"),
        json_field(text, "tags"),
        json_field(text, "timestamp"),
        unit,
    )
}

/// Reads the text of a sidecar; `None` where its timestamp is the least 64-bit
/// integer, whose size cannot be taken.
pub fn checked_metadata(text: &str, unit: StampUnit) -> (m: Option<Metadata>)
    ensures
        m is None <==> unreadable_timestamp(json_member(text@, "timestamp"@)),
        m matches Some(m) ==> m@ == metadata_of(text@, unit),
{
    let timestamp = json_field(text, "timestamp");
    if let Some(t) = read_timestamp(&timestamp) {
        if t == i64::MIN {
            return None;
        }
    }
    Some(read_metadata(text, unit))
}

impl Metadata {
    /// What is known of a dump without a sidecar.
    pub fn none() -> (m: Metadata)
        ensures
            m@ == (MetadataView { title: seq![], tags: seq![], timestamp: None }),
    {
        let m = Metadata { title: String::new(), tags: Vec::new(), timestamp: None };
        assert(views(m.tags@) =~= seq![]);
        m
    }
}

/// The members of a sidecar, by name.
pub open spec fn sidecar_members(
    title: Seq<char>,
    tags: Seq<Seq<char>>,
    timestamp: i64,
) -> Seq<(Seq<char>, FieldView)> {
    seq![
        ("title"@, FieldView::Text(title)),
        ("tags"@, FieldView::List(tags.map_values(|s: Seq<char>| Some(s)))),
        (
            "timestamp"@,
            FieldView::Number(
                Some(timestamp),
                if timestamp >= 0 {
                    Some(timestamp as u64)
                } else {
                    None
                },
            ),
        ),
    ]
}

proof fn lemma_strings_of_all(list: Seq<Seq<char>>)
    ensures
        strings_of(list.map_values(|s: Seq<char>| Some(s))) == list,
    decreases list.len(),
{
    let items = list.map_values(|s: Seq<char>| Some(s));
    if list.len() > 0 {
        lemma_strings_of_all(list.drop_last());
        assert(items.drop_last() =~= list.drop_last().map_values(|s: Seq<char>| Some(s)));
        assert(list =~= list.drop_last().push(list.last()));
    } else {
        assert(list =~= seq![]);
    }
}

/// The text of the sidecar for a dump. Read back, it gives the title and the
/// tags as they were, and the timestamp in the unit asked for; a timestamp in
/// milliseconds beyond the limit for seconds comes back as it was.
pub fn metadata_text(title: &str, tags: &Vec<String>, timestamp: i64) -> (text: String)
    ensures
        text@ == object_text(sidecar_members(title@, views(tags@), timestamp)),
        forall|unit: StampUnit| #[trigger]
            metadata_of(text@, unit) == (MetadataView {
                title: title@,
                tags: views(tags@),
                timestamp: Some(in_unit(timestamp, unit)),
            }),
        unreadable_timestamp(json_member(text@, "timestamp"@)) <==> timestamp == i64::MIN,
{
    proof {
        reveal_strlit("title");
        reveal_strlit("tags");
        reveal_strlit("timestamp");
        lemma_strings_of_all(views(tags@));
        assert("title"@.len() == 5 && "tags"@.len() == 4 && "timestamp"@.len() == 9);
    }
    let mut members: Vec<(String, NewField)> = Vec::new();
    members.push(("title".to_string(), NewField::Text(title.to_string())));
    members.push(("tags".to_string(), NewField::Texts(copy_strings(tags))));
    members.push(("timestamp".to_string(), NewField::Int(timestamp)));
    let ghost named = members@;
    proof {
        assert(named[0].0@ == "title"@ && named[1].0@ == "tags"@ && named[2].0@ == "timestamp"@);
        assert(members_view(named) =~= sidecar_members(title@, views(tags@), timestamp));
    }
    let text = json_object(members);
    proof {
        assert(json_member(text@, named[0].0@) == Some(named[0].1@));
        assert(json_member(text@, named[1].0@) == Some(named[1].1@));
        assert(json_member(text@, named[2].0@) == Some(named[2].1@));
        assert forall|unit: StampUnit| #[trigger]
            metadata_of(text@, unit) == (MetadataView {
            title: title@,
            tags: views(tags@),
            timestamp: Some(in_unit(timestamp, unit)),
        }) by {}
    }
    text
}

/// Milliseconds stay as they are when a sidecar is read in milliseconds, and
/// become whole seconds when it is read in seconds.
pub proof fn law_large_timestamps_are_milliseconds(t: i64)
    requires
        t > SECONDS_LIMIT || t < -SECONDS_LIMIT,
    ensures
        in_unit(t, StampUnit::Millis) == t,
        in_unit(t, StampUnit::Seconds) == divide_toward_zero(t as int, 1000),
{
}

/// Seconds become milliseconds when a sidecar is read in milliseconds, and
/// stay as they are when it is read in seconds.
pub proof fn law_small_timestamps_are_seconds(t: i64)
    requires
        -SECONDS_LIMIT <= t <= SECONDS_LIMIT,
    ensures
        in_unit(t, StampUnit::Millis) == t * 1000,
        in_unit(t, StampUnit::Seconds) == t,
{
}

/// The title of a sidecar is the whole string under `title`; anything else there
/// counts as no title.
pub proof fn law_title_is_taken_whole(
    title: Option<FieldView>,
    tags: Option<FieldView>,
    timestamp: Option<FieldView>,
    unit: StampUnit,
)
    ensures
        ({
            let m = metadata_of_fields(title, tags, timestamp, unit);
            &&& title matches Some(FieldView::Text(s)) ==> m.title == s
            &&& !(title is Some && title->0 is Text) ==> m.title.len() == 0
        }),
{
}

/// The tags of a sidecar are the strings in the array under `tags`, each one and
/// in order; anything else there counts as no tags.
pub proof fn law_tags_are_the_strings(
    title: Option<FieldView>,
    a: Seq<Option<Seq<char>>>,
    item: Option<Seq<char>>,
    b: Seq<Option<Seq<char>>>,
    timestamp: Option<FieldView>,
    unit: StampUnit,
)
    ensures
        ({
            let read = |items: Seq<Option<Seq<char>>>|
                metadata_of_fields(title, Some(FieldView::List(items)), timestamp, unit).tags;
            &&& read(a + b) == read(a) + read(b)
            &&& item matches Some(t) ==> read(seq![item]) == seq![t]
            &&& item is None ==> read(seq![item]).len() == 0
            &&& read(seq![]).len() == 0
        }),
{
    lemma_strings_of_concat(a, b);
    reveal_with_fuel(strings_of, 2);
    let one: Seq<Option<Seq<char>>> = seq![item];
    assert(one.drop_last() =~= seq![]);
    if let Some(t) = item {
        assert(strings_of(one) =~= seq![t]);
    }
}

/// What is no array holds no tags.
pub proof fn law_no_array_no_tags(
    title: Option<FieldView>,
    tags: Option<FieldView>,
    timestamp: Option<FieldView>,
    unit: StampUnit,
)
    requires
        !(tags is Some && tags->0 is List),
    ensures
        metadata_of_fields(title, tags, timestamp, unit).tags.len() == 0,
{
}

proof fn lemma_strings_of_concat(a: Seq<Option<Seq<char>>>, b: Seq<Option<Seq<char>>>)
    ensures
        strings_of(a + b) == strings_of(a) + strings_of(b),
    decreases b.len(),
{
    if b.len() == 0 {
        assert(a + b =~= a);
        assert(strings_of(a) + strings_of(b) =~= strings_of(a));
    } else {
        lemma_strings_of_concat(a, b.drop_last());
        assert((a + b).drop_last() =~= a + b.drop_last());
        assert(strings_of(a + b) =~= strings_of(a) + strings_of(b));
    }
}

/// The two units tell the same time: the milliseconds are a thousand times the
/// seconds, and less than a second more.
pub proof fn law_units_agree(t: i64)
    requires
        t >= 0,
    ensures
        ({
            let (millis, secs) = (in_unit(t, StampUnit::Millis), in_unit(t, StampUnit::Seconds));
            secs * 1000 <= millis < (secs + 1) * 1000
        }),
{
}

/// A timestamp may stand as a number or as its numeral in a string: both are the
/// same. A number beyond the signed range counts as the largest.
pub proof fn law_timestamps_as_text(n: nat, unsigned: Option<u64>, big: u64)
    requires
        n <= i64::MAX,
        big >= i64::MAX,
    ensures
        raw_timestamp(Some(FieldView::Number(Some(n as i64), unsigned))) == Some(n as i64),
        raw_timestamp(Some(FieldView::Text(crate::text::decimal(n)))) == Some(n as i64),
        raw_timestamp(Some(FieldView::Text(seq!['+'] + crate::text::decimal(n)))) == Some(n as i64),
        raw_timestamp(Some(FieldView::Text(seq!['-'] + crate::text::decimal(n)))) == Some(
            (-(n as int)) as i64,
        ),
        raw_timestamp(Some(FieldView::Number(None, Some(big)))) == Some(i64::MAX),
        raw_timestamp(Some(FieldView::Number(None, None))) is None,
        raw_timestamp(Some(FieldView::Other)) is None,
        raw_timestamp(None) is None,
{
    crate::text::law_numerals(n);
    let digits = crate::text::decimal(n);
    crate::text::lemma_decimal_digits(n);
    assert((seq!['+'] + digits).skip(1) =~= digits);
    assert((seq!['-'] + digits).skip(1) =~= digits);
}

/// A text that holds anything but digits behind an optional sign is no timestamp,
/// nor is a sign alone.
pub proof fn law_other_texts_are_no_timestamps(s: Seq<char>, i: int)
    requires
        0 <= i < s.len(),
        !('0' <= s[i] <= '9'),
        i > 0 || s.len() == 1 || (s[0] != '-' && s[0] != '+'),
    ensures
        raw_timestamp(Some(FieldView::Text(s))) is None,
{
    let signed = s[0] == '-' || s[0] == '+';
    if signed {
        if s.len() > 1 {
            assert(s.skip(1)[i - 1] == s[i]);
        }
    } else {
        assert(!is_digit(s[i]));
    }
}

/// A sidecar says its title under `title`, its tags under `tags` and its time
/// under `timestamp`; what else it holds does not matter.
pub proof fn law_names_of_the_members(
    text: Seq<char>,
    other: Seq<char>,
    title: Seq<char>,
    items: Seq<Option<Seq<char>>>,
    unit: StampUnit,
)
    ensures
        json_member(text, "title"@) == Some(FieldView::Text(title)) ==> metadata_of(text, unit).title
            == title,
        json_member(text, "title"@) is None ==> metadata_of(text, unit).title.len() == 0,
        json_member(text, "tags"@) == Some(
            FieldView::List(items),
        ) && (forall|i: int| 0 <= i < items.len() ==> #[trigger] items[i] is Some) ==> metadata_of(
            text,
            unit,
        ).tags.len() == items.len(),
        json_member(text, "tags"@) is None ==> metadata_of(text, unit).tags.len() == 0,
        json_member(text, "timestamp"@) is None ==> metadata_of(text, unit).timestamp is None,
        json_member(text, "title"@) == json_member(other, "title"@) ==> metadata_of(text, unit).title
            == metadata_of(other, unit).title,
        json_member(text, "tags"@) == json_member(other, "tags"@) ==> metadata_of(text, unit).tags
            == metadata_of(other, unit).tags,
        json_member(text, "timestamp"@) == json_member(other, "timestamp"@) ==> metadata_of(
            text,
            unit,
        ).timestamp == metadata_of(other, unit).timestamp,
{
    if forall|i: int| 0 <= i < items.len() ==> #[trigger] items[i] is Some {
        lemma_all_strings(items);
    }
}

proof fn lemma_all_strings(items: Seq<Option<Seq<char>>>)
    requires
        forall|i: int| 0 <= i < items.len() ==> #[trigger] items[i] is Some,
    ensures
        strings_of(items).len() == items.len(),
    decreases items.len(),
{
    if items.len() > 0 {
        assert(items.last() is Some);
        lemma_all_strings(items.drop_last());
    }
}

/// A sidecar that is written names its title, its tags and its time, once each.
pub proof fn law_members_of_a_sidecar(title: Seq<char>, tags: Seq<Seq<char>>, timestamp: i64)
    ensures
        ({
            let m = sidecar_members(title, tags, timestamp);
            &&& m.len() == 3
            &&& m[0].0 == "title"@ && m[0].1 == FieldView::Text(title)
            &&& m[1].0 == "tags"@ && m[1].1 is List
            &&& m[2].0 == "timestamp"@ && raw_timestamp(Some(m[2].1)) == Some(timestamp)
        }),
{
}

} // verus!
