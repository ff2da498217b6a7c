//! What the tags of a way say of a road: whether it is one, whether cars
//! may use it, how wide it is and how fast one may drive on it.

use super::data::{RoadRaw, RoadRawView, Tags, Way, WayView};
use super::decimal::{
    fixed_point_value, is_decimal, lemma_decimal_is_ascii, lemma_decimal_is_ascii_digits_or_point,
    lemma_two_places_are_a_factor_of_a_hundred, parse_decimal,
};
use vstd::prelude::*;
use vstd::string::StrSliceExecFns;

verus! {

/// The width of a road whose tags give none that can be read, in
/// millimetres: one metre.
pub const DEFAULT_WIDTH: u32 = 1000;

/// The speed limit of a road whose tags give none that can be read.
pub const DEFAULT_SPEEDLIMIT: u8 = 0;

/// The ASCII code of the letter `c`.
const LETTER_C: u8 = 99;

/// The ASCII code of the letter `m`.
const LETTER_M: u8 = 109;

/// The value that the tags give a key: that of the last tag with the key,
/// as if each tag overwrote the ones before it.
pub open spec fn tag_value(tags: Tags, key: Seq<char>) -> Option<Seq<char>>
    decreases tags.len(),
{
    if tags.len() == 0 {
        None
    } else if tags.last().0 == key {
        Some(tags.last().1)
    } else {
        tag_value(tags.drop_last(), key)
    }
}

/// Looks a key up in the tags.
pub fn find_tag<'a>(tags: &'a Vec<(String, String)>, key: &str) -> (value: Option<&'a String>)
    ensures
        match value {
            Some(text) => tag_value(tags.deep_view(), key@) == Some(text@),
            None => tag_value(tags.deep_view(), key@) is None,
        },
{
    let key: String = key.to_owned();
    let ghost all = tags.deep_view();
    let mut found: Option<&'a String> = None;
    let mut i: usize = 0;
    while i < tags.len()
        invariant
            all == tags.deep_view(),
            i <= tags@.len(),
            match found {
                Some(text) => tag_value(all.take(i as int), key@) == Some(text@),
                None => tag_value(all.take(i as int), key@) is None,
            },
        decreases tags@.len() - i,
    {
        assert(all.take(i + 1).drop_last() == all.take(i as int));
        if tags[i].0 == key {
            found = Some(&tags[i].1);
        }
        i += 1;
    }
    assert(all.take(i as int) == all);
    found
}

/// Cars may use a way unless its tags say no: `motorcar=no` or
/// `motor_vehicle=no`.
pub open spec fn allows_cars(tags: Tags) -> bool {
    &&& tag_value(tags, "motorcar"@) != Some("no"@)
    &&& tag_value(tags, "motor_vehicle"@) != Some("no"@)
}

/// Whether the tags leave the way open to cars.
pub fn car_allowed(tags: &Vec<(String, String)>) -> (allowed: bool)
    ensures
        allowed == allows_cars(tags.deep_view()),
{
    !says_no(find_tag(tags, "motorcar")) && !says_no(find_tag(tags, "motor_vehicle"))
}

/// Whether a tag is there and its value is `no`.
fn says_no(value: Option<&String>) -> (no: bool)
    ensures
        no == match value {
            Some(text) => text@ == "no"@,
            None => false,
        },
{
    match value {
        Some(text) => {
            let no: String = "no".to_owned();
            *text == no
        },
        None => false,
    }
}

/// The width that a text writes, in millimetres: a decimal number of
/// metres, with or without an `m` behind it, or a decimal number of
/// centimetres with `cm` behind it. Fractions of a millimetre are dropped.
pub open spec fn width_written(text: Seq<char>) -> Option<u32> {
    let n = text.len() as int;
    if n >= 2 && text[n - 2] == 'c' && text[n - 1] == 'm' {
        if is_decimal(text.take(n - 2)) {
            Some(fixed_point_value(text.take(n - 2), 1, u32::MAX as u64) as u32)
        } else {
            None
        }
    } else if n >= 1 && text[n - 1] == 'm' {
        if is_decimal(text.take(n - 1)) {
            Some(fixed_point_value(text.take(n - 1), 3, u32::MAX as u64) as u32)
        } else {
            None
        }
    } else {
        if is_decimal(text) {
            Some(fixed_point_value(text, 3, u32::MAX as u64) as u32)
        } else {
            None
        }
    }
}

/// A number of centimetres is a hundredth of the same number of metres:
/// `250cm` is as wide as `2.5m`, the hundredth part of `250m`. This holds
/// as long as the width in metres is less than the greatest that a `u32`
/// holds, at which widths are capped.
pub proof fn lemma_centimetres_are_hundredths_of_metres(number: Seq<char>)
    requires
        is_decimal(number),
        width_written(number + seq!['m']) != Some(u32::MAX),
    ensures
        width_written(number + seq!['c', 'm']) is Some,
        width_written(number + seq!['m']) is Some,
        width_written(number + seq!['c', 'm'])->0 == width_written(number + seq!['m'])->0 / 100,
{
    let metres = number + seq!['m'];
    let centimetres = number + seq!['c', 'm'];
    assert(metres.take(metres.len() - 1) == number);
    assert(centimetres.take(centimetres.len() - 2) == number);
    assert(metres.len() >= 2 ==> metres[metres.len() - 2] != 'c') by {
        if metres.len() >= 2 {
            lemma_decimal_is_ascii_digits_or_point(number, number.len() - 1);
        }
    }
    lemma_two_places_are_a_factor_of_a_hundred(number, 1);
}

/// Reads the value of a `width` tag.
pub fn parse_width(text: &str) -> (width: Option<u32>)
    ensures
        width == width_written(text@),
{
    if !text.is_ascii() {
        proof {
            if width_written(text@) is Some {
                lemma_width_is_ascii(text@);
            }
        }
        return None;
    }
    proof {
        vstd::string::is_ascii_spec_bytes(text);
    }
    let n: usize = text.as_bytes().len();
    let ends_in_m = n >= 1 && text.get_ascii(n - 1) == LETTER_M;
    let ends_in_cm = n >= 2 && ends_in_m && text.get_ascii(n - 2) == LETTER_C;
    let (number, places): (&str, usize) = if ends_in_cm {
        (text.substring_ascii(0, n - 2), 1)
    } else if ends_in_m {
        (text.substring_ascii(0, n - 1), 3)
    } else {
        assert(text@.take(n as int) == text@);
        (text.substring_ascii(0, n), 3)
    };
    match parse_decimal(number, places, u32::MAX as u64) {
        Some(value) => Some(value as u32),
        None => None,
    }
}

/// A text that writes a width holds ASCII characters only.
proof fn lemma_width_is_ascii(text: Seq<char>)
    requires
        width_written(text) is Some,
    ensures
        vstd::utf8::is_ascii_chars(text),
{
    let n = text.len() as int;
    let number = if n >= 2 && text[n - 2] == 'c' && text[n - 1] == 'm' {
        text.take(n - 2)
    } else if n >= 1 && text[n - 1] == 'm' {
        text.take(n - 1)
    } else {
        text
    };
    lemma_decimal_is_ascii(number);
    assert forall|i: int| 0 <= i < n implies '\0' <= #[trigger] text[i] <= '\u{7f}' by {
        if i < number.len() {
            assert(text[i] == number[i]);
        }
    }
}

/// The speed limit that a text writes: a decimal number, of which the
/// whole part counts, and 255 where it is greater than that.
pub open spec fn speedlimit_written(text: Seq<char>) -> Option<u8> {
    if is_decimal(text) {
        Some(fixed_point_value(text, 0, 255) as u8)
    } else {
        None
    }
}

/// Reads the value of a `speedlimit` tag.
pub fn parse_speedlimit(text: &str) -> (speedlimit: Option<u8>)
    ensures
        speedlimit == speedlimit_written(text@),
{
    match parse_decimal(text, 0, 255) {
        Some(value) => Some(value as u8),
        None => None,
    }
}

/// The width of the road that the tags describe, in millimetres:
/// what the `width` tag writes, and [`DEFAULT_WIDTH`] where there is no
/// such tag or it cannot be read.
pub open spec fn tagged_width(tags: Tags) -> u32 {
    match tag_value(tags, "width"@) {
        Some(text) => match width_written(text) {
            Some(width) => width,
            None => DEFAULT_WIDTH,
        },
        None => DEFAULT_WIDTH,
    }
}

/// The width of a road from its tags.
pub fn road_width(tags: &Vec<(String, String)>) -> (width: u32)
    ensures
        width == tagged_width(tags.deep_view()),
{
    match find_tag(tags, "width") {
        Some(text) => match parse_width(text.as_str()) {
            Some(width) => width,
            None => DEFAULT_WIDTH,
        },
        None => DEFAULT_WIDTH,
    }
}

/// The speed limit of the road that the tags describe: what the
/// `speedlimit` tag writes, and [`DEFAULT_SPEEDLIMIT`] where there is no
/// such tag or it cannot be read.
pub open spec fn tagged_speedlimit(tags: Tags) -> u8 {
    match tag_value(tags, "speedlimit"@) {
        Some(text) => match speedlimit_written(text) {
            Some(speedlimit) => speedlimit,
            None => DEFAULT_SPEEDLIMIT,
        },
        None => DEFAULT_SPEEDLIMIT,
    }
}

/// The speed limit of a road from its tags.
pub fn road_speedlimit(tags: &Vec<(String, String)>) -> (speedlimit: u8)
    ensures
        speedlimit == tagged_speedlimit(tags.deep_view()),
{
    match find_tag(tags, "speedlimit") {
        Some(text) => match parse_speedlimit(text.as_str()) {
            Some(speedlimit) => speedlimit,
            None => DEFAULT_SPEEDLIMIT,
        },
        None => DEFAULT_SPEEDLIMIT,
    }
}

/// The road that a way stands for, if it stands for one: a way with a
/// `highway` tag that cars may use. The road keeps the way's node
/// identifiers as they are.
pub open spec fn road_of_way(way: WayView) -> Option<RoadRawView> {
    match tag_value(way.tags, "highway"@) {
        Some(kind) => if allows_cars(way.tags) {
            Some(
                RoadRawView {
                    id: way.id,
                    nodes: way.refs,
                    kind,
                    width: tagged_width(way.tags),
                    speedlimit: tagged_speedlimit(way.tags),
                },
            )
        } else {
            None
        },
        None => None,
    }
}

/// Takes a way for a road, or drops it.
pub fn way_to_road(way: Way) -> (road: Option<RoadRaw>)
    ensures
        road.deep_view() == road_of_way(way@),
{
    let kind: String = match find_tag(&way.tags, "highway") {
        Some(kind) => kind.clone(),
        None => { return None; },
    };
    if !car_allowed(&way.tags) {
        return None;
    }
    let width = road_width(&way.tags);
    let speedlimit = road_speedlimit(&way.tags);
    Some(RoadRaw { id: way.id, nodes: way.refs, kind, width, speedlimit })
}

} // verus!
