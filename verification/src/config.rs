//! Configuration-file parsing and validation.
//!
//! Ranges use half-open `[start, end)` bounds throughout the scanner. Parsing
//! accepts the legacy spelling of several settings, but produces one normalized
//! [`ScanConfig`] for all backends.

use vstd::prelude::*;
use vstd::string::*;
use crate::filter::{
    is_quarter_turn, prepare_error, prepare_filters, rotate_xz, rows_fit, turned_offset_fits,
    turns_of,
};
use crate::number::{
    decimal, i32_value, i8_value, parse_i32, parse_i8, parse_u8, push_int, push_nat, u8_value,
};
use crate::text::{
    ascii_lower, ascii_lowered, chars_of, enclosed, find, lemma_find_bounds, lemma_split_not_empty,
    outcome, quoted, same_text, split, split_all, split_at_first, split_once, strings,
    strip_enclosing, texts, to_ascii_lowercase, trim, trimmed, words, words_of,
};
use crate::types::{algorithm_named, Face, RotationInfo, RotationKind, TextureAlgorithm};

verus! {

/// A half-open integer range used for one scan axis.
#[derive(Clone, Copy, Debug, PartialEq, Eq, Structural)]
pub struct IntRange {
    pub start: i32,
    pub end: i32,
}

/// Horizontal dimensions of one independently scheduled scan tile.
#[derive(Clone, Copy, Debug, PartialEq, Eq, Structural)]
pub struct TileSize {
    pub x: i32,
    pub z: i32,
}

/// The order in which scan tiles are visited.
#[derive(Clone, Copy, Debug, PartialEq, Eq, Structural)]
pub enum ScanOrder {
    Linear,
    Spiral,
    ReverseSpiral,
}

/// Settings for a coordinate search.
#[derive(Clone, Debug)]
pub struct ScanConfig {
    pub algorithm: TextureAlgorithm,
    pub scan_order: ScanOrder,
    pub directions: Vec<i32>,
    pub x_range: IntRange,
    pub y_range: IntRange,
    pub z_range: IntRange,
    pub error_tolerance: i32,
    pub cpu_tile_size: TileSize,
    pub gpu_tile_size: TileSize,
    pub verbose: bool,
    pub filter: Vec<RotationInfo>,
    pub source_path: String,
}

/// The settings of a [`ScanConfig`], with its lists and texts as sequences.
#[verifier::ext_equal]
pub struct Settings {
    pub algorithm: TextureAlgorithm,
    pub scan_order: ScanOrder,
    pub directions: Seq<i32>,
    pub x_range: IntRange,
    pub y_range: IntRange,
    pub z_range: IntRange,
    pub error_tolerance: i32,
    pub cpu_tile_size: TileSize,
    pub gpu_tile_size: TileSize,
    pub verbose: bool,
    pub filter: Seq<RotationInfo>,
    pub source_path: Seq<char>,
}

impl View for ScanConfig {
    type V = Settings;

    open spec fn view(&self) -> Settings {
        Settings {
            algorithm: self.algorithm,
            scan_order: self.scan_order,
            directions: self.directions@,
            x_range: self.x_range,
            y_range: self.y_range,
            z_range: self.z_range,
            error_tolerance: self.error_tolerance,
            cpu_tile_size: self.cpu_tile_size,
            gpu_tile_size: self.gpu_tile_size,
            verbose: self.verbose,
            filter: self.filter@,
            source_path: self.source_path@,
        }
    }
}

/// The settings that hold where a configuration says nothing else.
pub open spec fn default_settings() -> Settings {
    Settings {
        algorithm: TextureAlgorithm::Vanilla3,
        scan_order: ScanOrder::Linear,
        directions: seq![0i32],
        x_range: IntRange { start: 0, end: 0 },
        y_range: IntRange { start: 0, end: 0 },
        z_range: IntRange { start: 0, end: 0 },
        error_tolerance: 0,
        cpu_tile_size: TileSize { x: 1024, z: 1024 },
        gpu_tile_size: TileSize { x: 8192, z: 8192 },
        verbose: false,
        filter: Seq::empty(),
        source_path: Seq::empty(),
    }
}

impl Default for ScanConfig {
    fn default() -> (config: Self)
        ensures
            config@ == default_settings(),
    {
        let mut directions: Vec<i32> = Vec::new();
        directions.push(0);
        let config = ScanConfig {
            algorithm: TextureAlgorithm::Vanilla3,
            scan_order: ScanOrder::Linear,
            directions,
            x_range: IntRange { start: 0, end: 0 },
            y_range: IntRange { start: 0, end: 0 },
            z_range: IntRange { start: 0, end: 0 },
            error_tolerance: 0,
            cpu_tile_size: TileSize { x: 1024, z: 1024 },
            gpu_tile_size: TileSize { x: 8192, z: 8192 },
            verbose: false,
            filter: Vec::new(),
            source_path: String::new(),
        };
        assert(config@ =~= default_settings());
        config
    }
}

/// The lower-case form of a character beyond ASCII, as Unicode maps it.
pub uninterp spec fn unicode_lowercase(c: char) -> Seq<char>;

/// Lower-cases a character with `char::to_lowercase`. An ASCII character gives
/// one character, a small letter where it is a capital letter; any other gives
/// what the Unicode Character Database maps it to, which is left as a name.
#[verifier::external_body]
fn char_to_lowercase(c: char) -> (lower: Vec<char>)
    ensures
        lower@ == (if (c as u32) < 128 {
            seq![ascii_lower(c)]
        } else {
            unicode_lowercase(c)
        }),
{
    c.to_lowercase().collect()
}

/// The lower-case form of a character.
pub open spec fn lowercase_of(c: char) -> Seq<char> {
    if (c as u32) < 128 {
        seq![ascii_lower(c)]
    } else {
        unicode_lowercase(c)
    }
}

/// A character that names of settings and sections may or may not contain.
pub open spec fn is_separator(c: char) -> bool {
    c == ' ' || c == '_' || c == '-' || c == '.'
}

/// A name without separators, in lower case.
pub open spec fn compacted(s: Seq<char>) -> Seq<char>
    decreases s.len(),
{
    if s.len() == 0 {
        Seq::empty()
    } else if is_separator(s.last()) {
        compacted(s.drop_last())
    } else {
        compacted(s.drop_last()) + lowercase_of(s.last())
    }
}

/// Returns a name without separators, in lower case.
pub fn compact_name(value: &str) -> (name: String)
    ensures
        name@ == compacted(value@),
{
    let v: Vec<char> = chars_of(value);
    let mut name: String = String::new();
    let mut i: usize = 0;
    while i < v.len()
        invariant
            v@ == value@,
            i <= v.len(),
            name@ == compacted(value@.take(i as int)),
        decreases v.len() - i,
    {
        let c: char = v[i];
        assert(value@.take(i + 1).drop_last() =~= value@.take(i as int));
        if !(c == ' ' || c == '_' || c == '-' || c == '.') {
            let lower: Vec<char> = char_to_lowercase(c);
            let ghost before = name@;
            let mut k: usize = 0;
            assert(before + lower@.take(0) =~= before);
            while k < lower.len()
                invariant
                    k <= lower.len(),
                    name@ == before + lower@.take(k as int),
                decreases lower.len() - k,
            {
                name.push(lower[k]);
                assert(before + lower@.take(k + 1) =~= (before + lower@.take(k as int)).push(
                    lower@[k as int],
                ));
                k = k + 1;
            }
            assert(lower@.take(k as int) =~= lower@);
        }
        i = i + 1;
    }
    assert(value@.take(i as int) =~= value@);
    name
}

/// The pair of integers that a text like `(first, second)` denotes.
pub open spec fn pair_value(s: Seq<char>) -> Result<(i32, i32), Seq<char>> {
    let value = trimmed(s);
    match enclosed(value, '(', ')') {
        None => Err("expected '(first, second)', got '"@ + value + "'"@),
        Some(contents) => match split_at_first(contents, ',') {
            None => Err("expected two comma-separated integers, got '"@ + value + "'"@),
            Some((first, second)) => match (
                i32_value(trimmed(first)),
                i32_value(trimmed(second)),
            ) {
                (Some(a), Some(b)) => Ok((a as i32, b as i32)),
                (None, _) => Err("invalid integer '"@ + trimmed(first) + "'"@),
                (_, None) => Err("invalid integer '"@ + trimmed(second) + "'"@),
            },
        },
    }
}

/// Reads a pair of integers.
pub fn parse_pair(value: &str) -> (result: Result<(i32, i32), String>)
    ensures
        outcome(result) == pair_value(value@),
{
    let value: &str = trim(value);
    let contents: &str = match strip_enclosing(value, '(', ')') {
        Some(contents) => contents,
        None => {
            return Err(quoted("expected '(first, second)', got '", value));
        },
    };
    let (first, second): (&str, &str) = match split_once(contents, ',') {
        Some(parts) => parts,
        None => {
            return Err(quoted("expected two comma-separated integers, got '", value));
        },
    };
    let first: &str = trim(first);
    let second: &str = trim(second);
    let a: i32 = match parse_i32(first) {
        Some(a) => a,
        None => {
            return Err(quoted("invalid integer '", first));
        },
    };
    let b: i32 = match parse_i32(second) {
        Some(b) => b,
        None => {
            return Err(quoted("invalid integer '", second));
        },
    };
    Ok((a, b))
}

/// The directions that the first `n` items of a list denote.
pub open spec fn directions_from(items: Seq<Seq<char>>, n: int) -> Result<Seq<i32>, Seq<char>>
    decreases n,
{
    if n <= 0 {
        Ok(Seq::empty())
    } else {
        match directions_from(items, n - 1) {
            Err(error) => Err(error),
            Ok(list) => match i32_value(trimmed(items[n - 1])) {
                None => Err("invalid direction '"@ + trimmed(items[n - 1]) + "'"@),
                Some(d) => if !is_quarter_turn(d) || list.contains(d as i32) {
                    Err("direction "@ + decimal(d) + " is invalid or duplicated"@)
                } else {
                    Ok(list.push(d as i32))
                },
            },
        }
    }
}

/// The directions that a text like `[0, 90]` denotes.
pub open spec fn directions_value(s: Seq<char>) -> Result<Seq<i32>, Seq<char>> {
    match enclosed(trimmed(s), '[', ']') {
        None => Err("directions must use [0, 90, ...] syntax"@),
        Some(contents) => directions_from(
            split_all(contents, ','),
            split_all(contents, ',').len() as int,
        ),
    }
}

/// The first item that is not a direction spoils the whole list.
pub proof fn lemma_directions_error(items: Seq<Seq<char>>, n: int, m: int)
    requires
        n <= m,
        directions_from(items, n) is Err,
    ensures
        directions_from(items, m) == directions_from(items, n),
    decreases m - n,
{
    if n < m {
        lemma_directions_error(items, n, m - 1);
    }
}

/// A result with the elements of its list.
pub open spec fn list_outcome<T>(result: Result<Vec<T>, String>) -> Result<Seq<T>, Seq<char>> {
    match result {
        Ok(list) => Ok(list@),
        Err(error) => Err(error@),
    }
}

/// Tells whether a list holds a number.
fn contains_i32(list: &Vec<i32>, n: i32) -> (r: bool)
    ensures
        r == list@.contains(n),
{
    let mut i: usize = 0;
    while i < list.len()
        invariant
            i <= list.len(),
            forall|k: int| 0 <= k < i ==> list[k] != n,
        decreases list.len() - i,
    {
        if list[i] == n {
            assert(list@[i as int] == n);
            return true;
        }
        i = i + 1;
    }
    false
}

/// Reads a list of directions.
pub fn parse_directions(value: &str) -> (result: Result<Vec<i32>, String>)
    ensures
        list_outcome(result) == directions_value(value@),
{
    let contents: &str = match strip_enclosing(trim(value), '[', ']') {
        Some(contents) => contents,
        None => {
            return Err("directions must use [0, 90, ...] syntax".to_owned());
        },
    };
    let items: Vec<&str> = split(contents, ',');
    let ghost all = split_all(contents@, ',');
    let mut directions: Vec<i32> = Vec::new();
    let mut i: usize = 0;
    while i < items.len()
        invariant
            i <= items.len(),
            all == texts(items@),
            all == split_all(contents@, ','),
            enclosed(trimmed(value@), '[', ']') == Some(contents@),
            directions_from(all, i as int) == Ok::<Seq<i32>, Seq<char>>(directions@),
        decreases items.len() - i,
    {
        let item: &str = trim(items[i]);
        assert(all[i as int] == items@[i as int]@);
        let direction: i32 = match parse_i32(item) {
            Some(direction) => direction,
            None => {
                proof {
                    lemma_directions_error(all, i + 1, all.len() as int);
                }
                return Err(quoted("invalid direction '", item));
            },
        };
        let known: bool = direction == 0 || direction == 90 || direction == 180 || direction
            == 270;
        if !known || contains_i32(&directions, direction) {
            let mut message: String = "direction ".to_owned();
            push_int(&mut message, direction as i64);
            message.append(" is invalid or duplicated");
            proof {
                lemma_directions_error(all, i + 1, all.len() as int);
            }
            return Err(message);
        }
        directions.push(direction);
        i = i + 1;
    }
    Ok(directions)
}

/// The truth value that a text denotes.
pub open spec fn bool_value(s: Seq<char>) -> Result<bool, Seq<char>> {
    let word = ascii_lowered(trimmed(s));
    if word == "true"@ || word == "yes"@ || word == "on"@ || word == "1"@ {
        Ok(true)
    } else if word == "false"@ || word == "no"@ || word == "off"@ || word == "0"@ {
        Ok(false)
    } else {
        Err("invalid boolean '"@ + s + "'"@)
    }
}

/// Reads a truth value.
pub fn parse_bool(value: &str) -> (result: Result<bool, String>)
    ensures
        outcome(result) == bool_value(value@),
{
    let lower: String = to_ascii_lowercase(trim(value));
    let word: &str = lower.as_str();
    if same_text(word, "true") || same_text(word, "yes") || same_text(word, "on") || same_text(
        word,
        "1",
    ) {
        Ok(true)
    } else if same_text(word, "false") || same_text(word, "no") || same_text(word, "off")
        || same_text(word, "0") {
        Ok(false)
    } else {
        Err(quoted("invalid boolean '", value))
    }
}

/// The kind of row that a marker in lower case stands for.
pub open spec fn marker_kind(marker: Seq<char>) -> Option<RotationKind> {
    if marker == "normal"@ || marker == "false"@ || marker == "0"@ {
        Some(RotationKind::StandardFourWay)
    } else if marker == "side"@ || marker == "true"@ || marker == "1"@ {
        Some(RotationKind::StandardSide)
    } else if marker == "netherrack-up"@ {
        Some(RotationKind::Netherrack(Face::Up))
    } else if marker == "netherrack-down"@ {
        Some(RotationKind::Netherrack(Face::Down))
    } else if marker == "netherrack-north"@ {
        Some(RotationKind::Netherrack(Face::North))
    } else if marker == "netherrack-south"@ {
        Some(RotationKind::Netherrack(Face::South))
    } else if marker == "netherrack-east"@ {
        Some(RotationKind::Netherrack(Face::East))
    } else if marker == "netherrack-west"@ {
        Some(RotationKind::Netherrack(Face::West))
    } else {
        None
    }
}

/// Returns the kind of row that a marker in lower case stands for.
fn kind_of_marker(marker: &str) -> (kind: Option<RotationKind>)
    ensures
        kind == marker_kind(marker@),
{
    if same_text(marker, "normal") || same_text(marker, "false") || same_text(marker, "0") {
        Some(RotationKind::StandardFourWay)
    } else if same_text(marker, "side") || same_text(marker, "true") || same_text(marker, "1") {
        Some(RotationKind::StandardSide)
    } else if same_text(marker, "netherrack-up") {
        Some(RotationKind::Netherrack(Face::Up))
    } else if same_text(marker, "netherrack-down") {
        Some(RotationKind::Netherrack(Face::Down))
    } else if same_text(marker, "netherrack-north") {
        Some(RotationKind::Netherrack(Face::North))
    } else if same_text(marker, "netherrack-south") {
        Some(RotationKind::Netherrack(Face::South))
    } else if same_text(marker, "netherrack-east") {
        Some(RotationKind::Netherrack(Face::East))
    } else if same_text(marker, "netherrack-west") {
        Some(RotationKind::Netherrack(Face::West))
    } else {
        None
    }
}

/// All words are eight-bit integers.
pub open spec fn all_offsets(list: Seq<Seq<char>>) -> bool {
    forall|i: int| 0 <= i < list.len() ==> i8_value(#[trigger] list[i]) is Some
}

/// The variant and the marker of a filter row, behind its bar: the rotation and
/// the kind of the row.
pub open spec fn variant_value(list: Seq<Seq<char>>) -> Result<(u8, RotationKind), Seq<char>> {
    if list.len() == 0 {
        Err("filter row is missing a variant"@)
    } else {
        match u8_value(list[0]) {
            None => Err("filter variant must be a non-negative integer"@),
            Some(rotation) => if list.len() > 2 {
                Err("unexpected extra token in filter row"@)
            } else {
                let kind = if list.len() == 1 {
                    Some(RotationKind::StandardFourWay)
                } else {
                    marker_kind(ascii_lowered(list[1]))
                };
                match kind {
                    None => Err("invalid filter marker '"@ + ascii_lowered(list[1]) + "'"@),
                    Some(kind) => if rotation > kind.max_rotation() {
                        Err(
                            "variant "@ + decimal(rotation) + " exceeds maximum "@ + decimal(
                                kind.max_rotation(),
                            ),
                        )
                    } else {
                        Ok((rotation as u8, kind))
                    },
                }
            },
        }
    }
}

/// The filter row that a text like `x y z | variant [side]` denotes.
pub open spec fn filter_value(s: Seq<char>) -> Result<RotationInfo, Seq<char>> {
    match split_at_first(s, '|') {
        None => Err("filter rows must be: x y z | variant [side]"@),
        Some((left, right)) => {
            let offsets = words_of(left);
            if !all_offsets(offsets) {
                Err("filter offsets must fit in int8 range [-128, 127]"@)
            } else if offsets.len() != 3 {
                Err("filter rows must contain three coordinates"@)
            } else {
                match variant_value(words_of(right)) {
                    Err(error) => Err(error),
                    Ok((rotation, kind)) => Ok(
                        RotationInfo {
                            x: i8_value(offsets[0]).unwrap() as i8,
                            y: i8_value(offsets[1]).unwrap() as i8,
                            z: i8_value(offsets[2]).unwrap() as i8,
                            rotation,
                            kind,
                        },
                    ),
                }
            }
        },
    }
}

/// Reads the variant and the marker of a filter row.
fn parse_variant(text: &str) -> (result: Result<(u8, RotationKind), String>)
    ensures
        outcome(result) == variant_value(words_of(text@)),
{
    let list: Vec<&str> = words(text);
    assert(texts(list@).len() == list.len());
    assert(forall|i: int| 0 <= i < list.len() ==> texts(list@)[i] == (#[trigger] list@[i])@);
    if list.len() == 0 {
        return Err("filter row is missing a variant".to_owned());
    }
    let rotation: u8 = match parse_u8(list[0]) {
        Some(rotation) => rotation,
        None => {
            return Err("filter variant must be a non-negative integer".to_owned());
        },
    };
    if list.len() > 2 {
        return Err("unexpected extra token in filter row".to_owned());
    }
    let kind: RotationKind = if list.len() == 1 {
        RotationKind::StandardFourWay
    } else {
        let marker: String = to_ascii_lowercase(list[1]);
        match kind_of_marker(marker.as_str()) {
            Some(kind) => kind,
            None => {
                return Err(quoted("invalid filter marker '", marker.as_str()));
            },
        }
    };
    let maximum: u8 = match kind {
        RotationKind::StandardSide => 1,
        _ => 3,
    };
    if rotation > maximum {
        let mut message: String = "variant ".to_owned();
        push_nat(&mut message, rotation as u64);
        message.append(" exceeds maximum ");
        push_nat(&mut message, maximum as u64);
        return Err(message);
    }
    Ok((rotation, kind))
}

/// Reads the offsets of a filter row.
fn parse_offsets(text: &str) -> (result: Option<Vec<i8>>)
    ensures
        match result {
            Some(list) => all_offsets(words_of(text@)) && list.len() == words_of(text@).len()
                && forall|i: int|
                0 <= i < list.len() ==> i8_value(#[trigger] words_of(text@)[i]) == Some(
                    list[i] as int,
                ),
            None => !all_offsets(words_of(text@)),
        },
{
    let list: Vec<&str> = words(text);
    let ghost all = words_of(text@);
    let mut offsets: Vec<i8> = Vec::new();
    let mut i: usize = 0;
    while i < list.len()
        invariant
            i <= list.len(),
            all == texts(list@),
            all == words_of(text@),
            offsets.len() == i,
            forall|k: int| 0 <= k < i ==> i8_value(#[trigger] all[k]) == Some(offsets[k] as int),
        decreases list.len() - i,
    {
        assert(all[i as int] == list@[i as int]@);
        match parse_i8(list[i]) {
            Some(n) => {
                offsets.push(n);
            },
            None => {
                return None;
            },
        }
        i = i + 1;
    }
    Some(offsets)
}

/// Reads a filter row.
pub fn parse_filter(value: &str) -> (result: Result<RotationInfo, String>)
    ensures
        outcome(result) == filter_value(value@),
{
    let (left, right): (&str, &str) = match split_once(value, '|') {
        Some(parts) => parts,
        None => {
            return Err("filter rows must be: x y z | variant [side]".to_owned());
        },
    };
    let offsets: Vec<i8> = match parse_offsets(left) {
        Some(offsets) => offsets,
        None => {
            return Err("filter offsets must fit in int8 range [-128, 127]".to_owned());
        },
    };
    if offsets.len() != 3 {
        return Err("filter rows must contain three coordinates".to_owned());
    }
    assert(i8_value(words_of(left@)[0]) == Some(offsets[0] as int));
    assert(i8_value(words_of(left@)[1]) == Some(offsets[1] as int));
    assert(i8_value(words_of(left@)[2]) == Some(offsets[2] as int));
    let (rotation, kind): (u8, RotationKind) = match parse_variant(right) {
        Ok(variant) => variant,
        Err(error) => {
            return Err(error);
        },
    };
    let row: RotationInfo = match kind {
        RotationKind::Netherrack(face) => RotationInfo::netherrack(
            offsets[0],
            offsets[1],
            offsets[2],
            rotation,
            face,
        ),
        RotationKind::StandardSide => RotationInfo::new(
            offsets[0],
            offsets[1],
            offsets[2],
            rotation,
            true,
        ),
        RotationKind::StandardFourWay => RotationInfo::new(
            offsets[0],
            offsets[1],
            offsets[2],
            rotation,
            false,
        ),
    };
    Ok(row)
}

/// The scan order that a text names.
pub open spec fn scan_order_value(s: Seq<char>) -> Result<ScanOrder, Seq<char>> {
    let name = ascii_lowered(s);
    if name == "linear"@ || name == "native"@ {
        Ok(ScanOrder::Linear)
    } else if name == "spiral"@ {
        Ok(ScanOrder::Spiral)
    } else if name == "reverse-spiral"@ {
        Ok(ScanOrder::ReverseSpiral)
    } else {
        Err("invalid scan order '"@ + s + "'"@)
    }
}

/// Reads the name of a scan order.
pub fn parse_scan_order(value: &str) -> (result: Result<ScanOrder, String>)
    ensures
        outcome(result) == scan_order_value(value@),
{
    let lower: String = to_ascii_lowercase(value);
    let name: &str = lower.as_str();
    if same_text(name, "linear") || same_text(name, "native") {
        Ok(ScanOrder::Linear)
    } else if same_text(name, "spiral") {
        Ok(ScanOrder::Spiral)
    } else if same_text(name, "reverse-spiral") {
        Ok(ScanOrder::ReverseSpiral)
    } else {
        Err(quoted("invalid scan order '", value))
    }
}

/// The error tolerance that a text denotes.
pub open spec fn tolerance_value(s: Seq<char>) -> Result<i32, Seq<char>> {
    match i32_value(s) {
        Some(n) => Ok(n as i32),
        None => Err("invalid error tolerance '"@ + s + "'"@),
    }
}

/// The settings after one `key = value` line. The key is given as it was written
/// and in its compact form, the value without surrounding white space.
pub open spec fn with_setting(
    old_settings: Settings,
    key: Seq<char>,
    key_name: Seq<char>,
    value: Seq<char>,
) -> Result<Settings, Seq<char>> {
    if key_name == "algorithm"@ {
        match algorithm_named(value) {
            Ok(algorithm) => Ok(Settings { algorithm, ..old_settings }),
            Err(error) => Err(error),
        }
    } else if key_name == "scanorder"@ {
        match scan_order_value(value) {
            Ok(scan_order) => Ok(Settings { scan_order, ..old_settings }),
            Err(error) => Err(error),
        }
    } else if key_name == "directions"@ {
        match directions_value(value) {
            Ok(directions) => Ok(Settings { directions, ..old_settings }),
            Err(error) => Err(error),
        }
    } else if key_name == "xrange"@ {
        match pair_value(value) {
            Ok((start, end)) => Ok(
                Settings { x_range: IntRange { start, end }, ..old_settings },
            ),
            Err(error) => Err(error),
        }
    } else if key_name == "yrange"@ {
        match pair_value(value) {
            Ok((start, end)) => Ok(
                Settings { y_range: IntRange { start, end }, ..old_settings },
            ),
            Err(error) => Err(error),
        }
    } else if key_name == "zrange"@ {
        match pair_value(value) {
            Ok((start, end)) => Ok(
                Settings { z_range: IntRange { start, end }, ..old_settings },
            ),
            Err(error) => Err(error),
        }
    } else if key_name == "cputilesize"@ {
        match pair_value(value) {
            Ok((x, z)) => Ok(Settings { cpu_tile_size: TileSize { x, z }, ..old_settings }),
            Err(error) => Err(error),
        }
    } else if key_name == "cudatilesize"@ || key_name == "gputilesize"@ {
        match pair_value(value) {
            Ok((x, z)) => Ok(Settings { gpu_tile_size: TileSize { x, z }, ..old_settings }),
            Err(error) => Err(error),
        }
    } else if key_name == "errortolerance"@ {
        match tolerance_value(value) {
            Ok(error_tolerance) => Ok(Settings { error_tolerance, ..old_settings }),
            Err(error) => Err(error),
        }
    } else if key_name == "verbose"@ {
        match bool_value(value) {
            Ok(verbose) => Ok(Settings { verbose, ..old_settings }),
            Err(error) => Err(error),
        }
    } else {
        Err("unknown setting '"@ + trimmed(key) + "'"@)
    }
}

/// Takes over one `key = value` line. A value that cannot be read leaves the
/// configuration as it is.
fn apply_setting(config: &mut ScanConfig, key: &str, key_name: &str, value: &str) -> (result:
    Result<(), String>)
    ensures
        match with_setting(old(config)@, key@, key_name@, value@) {
            Ok(settings) => result is Ok && final(config)@ == settings,
            Err(message) => {
                &&& result matches Err(error)
                &&& error@ == message
                &&& final(config)@ == old(config)@
            },
        },
{
    if same_text(key_name, "algorithm") {
        match TextureAlgorithm::from_str(value) {
            Ok(algorithm) => {
                config.algorithm = algorithm;
            },
            Err(error) => {
                return Err(error);
            },
        }
    } else if same_text(key_name, "scanorder") {
        match parse_scan_order(value) {
            Ok(scan_order) => {
                config.scan_order = scan_order;
            },
            Err(error) => {
                return Err(error);
            },
        }
    } else if same_text(key_name, "directions") {
        match parse_directions(value) {
            Ok(directions) => {
                config.directions = directions;
            },
            Err(error) => {
                return Err(error);
            },
        }
    } else if same_text(key_name, "xrange") || same_text(key_name, "yrange") || same_text(
        key_name,
        "zrange",
    ) {
        match parse_pair(value) {
            Ok((start, end)) => {
                let range: IntRange = IntRange { start, end };
                if same_text(key_name, "xrange") {
                    config.x_range = range;
                } else if same_text(key_name, "yrange") {
                    config.y_range = range;
                } else {
                    config.z_range = range;
                }
            },
            Err(error) => {
                return Err(error);
            },
        }
    } else if same_text(key_name, "cputilesize") {
        match parse_pair(value) {
            Ok((x, z)) => {
                config.cpu_tile_size = TileSize { x, z };
            },
            Err(error) => {
                return Err(error);
            },
        }
    } else if same_text(key_name, "cudatilesize") || same_text(key_name, "gputilesize") {
        match parse_pair(value) {
            Ok((x, z)) => {
                config.gpu_tile_size = TileSize { x, z };
            },
            Err(error) => {
                return Err(error);
            },
        }
    } else if same_text(key_name, "errortolerance") {
        match parse_i32(value) {
            Some(tolerance) => {
                config.error_tolerance = tolerance;
            },
            None => {
                return Err(quoted("invalid error tolerance '", value));
            },
        }
    } else if same_text(key_name, "verbose") {
        match parse_bool(value) {
            Ok(verbose) => {
                config.verbose = verbose;
            },
            Err(error) => {
                return Err(error);
            },
        }
    } else {
        return Err(quoted("unknown setting '", trim(key)));
    }
    Ok(())
}

/// A direction moves the offset of some row out of the eight-bit range.
pub open spec fn turns_outside(rows: Seq<RotationInfo>, direction: i32) -> bool {
    exists|k: int|
        0 <= k < rows.len() && !turned_offset_fits(
            #[trigger] rows[k],
            turns_of(direction as int),
        )
}

/// The first direction that moves an offset out of the eight-bit range.
pub open spec fn first_outside(directions: Seq<i32>, rows: Seq<RotationInfo>) -> Option<i32>
    decreases directions.len(),
{
    if directions.len() == 0 {
        None
    } else if turns_outside(rows, directions[0]) {
        Some(directions[0])
    } else {
        first_outside(directions.drop_first(), rows)
    }
}

/// What makes settings useless for a scan, if anything.
pub open spec fn validation_error(settings: Settings) -> Option<Seq<char>> {
    if settings.x_range.start >= settings.x_range.end || settings.y_range.start
        >= settings.y_range.end || settings.z_range.start >= settings.z_range.end {
        Some("scan range starts must be less than their ends"@)
    } else if settings.cpu_tile_size.x <= 0 || settings.cpu_tile_size.z <= 0
        || settings.gpu_tile_size.x <= 0 || settings.gpu_tile_size.z <= 0 {
        Some("tile size dimensions must be positive"@)
    } else if settings.error_tolerance < 0 {
        Some("errorTolerance must be non-negative"@)
    } else if settings.filter.len() == 0 {
        Some("filter must contain at least one row"@)
    } else {
        match first_outside(settings.directions, settings.filter) {
            Some(direction) => Some(
                "direction "@ + decimal(direction as int)
                    + " rotates a filter offset outside int8 range"@,
            ),
            None => prepare_error(
                settings.algorithm,
                settings.filter,
                settings.directions,
                settings.error_tolerance as int,
            ),
        }
    }
}

impl Settings {
    /// The directions are quarter turns, and the filter rows ask for rotations
    /// that exist.
    pub open spec fn meaningful(self) -> bool {
        &&& forall|i: int|
            0 <= i < self.directions.len() ==> is_quarter_turn(#[trigger] self.directions[i] as int)
        &&& forall|k: int| 0 <= k < self.filter.len() ==> (#[trigger] self.filter[k]).valid()
    }

    /// The settings are meaningful, and there is at least one direction and none
    /// twice.
    pub open spec fn well_formed(self) -> bool {
        &&& self.meaningful()
        &&& self.directions.len() > 0
        &&& self.directions.no_duplicates()
    }
}

/// No offset leaves the eight-bit range in the first `n` directions.
proof fn lemma_none_outside(directions: Seq<i32>, rows: Seq<RotationInfo>, n: int)
    requires
        0 <= n <= directions.len(),
        forall|i: int| 0 <= i < n ==> !turns_outside(rows, #[trigger] directions[i]),
    ensures
        first_outside(directions, rows) == first_outside(directions.skip(n), rows),
    decreases n,
{
    if n == 0 {
        assert(directions.skip(0) =~= directions);
    } else {
        let rest = directions.drop_first();
        assert(forall|i: int| 0 <= i < n - 1 ==> rest[i] == directions[i + 1]);
        assert(!turns_outside(rows, directions[0]));
        lemma_none_outside(rest, rows, n - 1);
        assert(rest.skip(n - 1) =~= directions.skip(n));
    }
}

/// Tells whether a direction moves the offset of some row out of the eight-bit range.
fn rotates_outside(rows: &Vec<RotationInfo>, direction: i32) -> (r: bool)
    requires
        is_quarter_turn(direction as int),
    ensures
        r == turns_outside(rows@, direction),
{
    let mut k: usize = 0;
    while k < rows.len()
        invariant
            k <= rows.len(),
            is_quarter_turn(direction as int),
            forall|m: int|
                0 <= m < k ==> turned_offset_fits(
                    #[trigger] rows[m],
                    turns_of(direction as int),
                ),
        decreases rows.len() - k,
    {
        let row: RotationInfo = rows[k];
        let (x, z): (i32, i32) = rotate_xz(row.x as i32, row.z as i32, direction);
        if x < i8::MIN as i32 || x > i8::MAX as i32 || z < i8::MIN as i32 || z > i8::MAX as i32 {
            assert(!turned_offset_fits(rows[k as int], turns_of(direction as int)));
            return true;
        }
        k = k + 1;
    }
    false
}

/// Checks that settings can be used for a scan.
pub fn validate(config: &ScanConfig) -> (result: Result<(), String>)
    requires
        config@.meaningful(),
    ensures
        match validation_error(config@) {
            Some(message) => result matches Err(error) && error@ == message,
            None => result is Ok,
        },
{
    if config.x_range.start >= config.x_range.end || config.y_range.start >= config.y_range.end
        || config.z_range.start >= config.z_range.end {
        return Err("scan range starts must be less than their ends".to_owned());
    }
    if config.cpu_tile_size.x <= 0 || config.cpu_tile_size.z <= 0 || config.gpu_tile_size.x <= 0
        || config.gpu_tile_size.z <= 0 {
        return Err("tile size dimensions must be positive".to_owned());
    }
    if config.error_tolerance < 0 {
        return Err("errorTolerance must be non-negative".to_owned());
    }
    if config.filter.len() == 0 {
        return Err("filter must contain at least one row".to_owned());
    }
    let ghost directions = config.directions@;
    let mut i: usize = 0;
    while i < config.directions.len()
        invariant
            i <= config.directions.len(),
            config@.meaningful(),
            directions == config.directions@,
            forall|k: int|
                0 <= k < i ==> !turns_outside(config.filter@, #[trigger] directions[k]),
            validation_error(config@) == (match first_outside(directions, config.filter@) {
                Some(direction) => Some(
                    "direction "@ + decimal(direction as int)
                        + " rotates a filter offset outside int8 range"@,
                ),
                None => prepare_error(
                    config.algorithm,
                    config.filter@,
                    config.directions@,
                    config.error_tolerance as int,
                ),
            }),
        decreases config.directions.len() - i,
    {
        let direction: i32 = config.directions[i];
        assert(config@.directions[i as int] == direction);
        if rotates_outside(&config.filter, direction) {
            proof {
                lemma_none_outside(directions, config.filter@, i as int);
                assert(directions.skip(i as int)[0] == direction);
            }
            let mut message: String = "direction ".to_owned();
            push_int(&mut message, direction as i64);
            message.append(" rotates a filter offset outside int8 range");
            return Err(message);
        }
        i = i + 1;
    }
    proof {
        lemma_none_outside(directions, config.filter@, i as int);
        assert(directions.skip(i as int).len() == 0);
        assert forall|k: int| 0 <= k < directions.len() implies is_quarter_turn(
            #[trigger] directions[k] as int,
        ) && rows_fit(config.filter@, directions[k] as int) by {
            assert(config@.directions[k] == directions[k]);
            assert(!turns_outside(config.filter@, directions[k]));
            assert forall|m: int| 0 <= m < config.filter@.len() implies (
            #[trigger] config.filter@[m]).valid() && turned_offset_fits(
                config.filter@[m],
                turns_of(directions[k] as int),
            ) by {
                assert(config@.filter[m].valid());
            }
        }
    }
    match prepare_filters(
        config.filter.as_slice(),
        config.algorithm,
        config.directions.as_slice(),
        config.error_tolerance,
    ) {
        Ok(_) => Ok(()),
        Err(error) => Err(error),
    }
}

/// What has been read of a configuration so far.
#[verifier::ext_equal]
pub struct Reading {
    /// The compact name of the current section.
    pub section: Seq<char>,
    /// The compact names of the settings read so far.
    pub seen: Seq<Seq<char>>,
    pub settings: Settings,
}

/// A line without its comment and without surrounding white space.
pub open spec fn line_content(line: Seq<char>) -> Seq<char> {
    trimmed(line.take(find(line, '#')))
}

/// The state after a `key = value` line.
pub open spec fn read_setting(
    state: Reading,
    key: Seq<char>,
    value: Seq<char>,
) -> Result<Reading, Seq<char>> {
    let key_name = compacted(key);
    if state.seen.contains(key_name) {
        Err("duplicate setting '"@ + trimmed(key) + "'"@)
    } else {
        match with_setting(state.settings, key, key_name, trimmed(value)) {
            Ok(settings) => Ok(
                Reading { section: state.section, seen: state.seen.push(key_name), settings },
            ),
            Err(error) => Err(error),
        }
    }
}

/// The state after one line.
pub open spec fn read_line(state: Reading, line: Seq<char>) -> Result<Reading, Seq<char>> {
    read_content(state, line_content(line))
}

/// The state after a line with a content.
pub open spec fn read_content(state: Reading, text: Seq<char>) -> Result<Reading, Seq<char>> {
    if text.len() == 0 {
        Ok(state)
    } else {
        match enclosed(text, '[', ']') {
            Some(name) => {
                let section = compacted(name);
                if section == "filter"@ || section == "scan"@ || section == "settings"@ {
                    Ok(Reading { section, ..state })
                } else {
                    Err("unknown section '"@ + name + "'"@)
                }
            },
            None => if state.section == "filter"@ {
                match filter_value(text) {
                    Ok(row) => Ok(
                        Reading {
                            settings: Settings {
                                filter: state.settings.filter.push(row),
                                ..state.settings
                            },
                            ..state
                        },
                    ),
                    Err(error) => Err(error),
                }
            } else {
                match split_at_first(text, '=') {
                    Some((key, value)) => read_setting(state, key, value),
                    None => Err("expected key=value setting"@),
                }
            },
        }
    }
}

/// An error message with the place of its line.
pub open spec fn line_error_text(path: Seq<char>, line: int, message: Seq<char>) -> Seq<char> {
    path + ":"@ + decimal(line) + ": "@ + message
}

/// The state before the first line.
pub open spec fn initial_reading(path: Seq<char>) -> Reading {
    Reading {
        section: Seq::empty(),
        seen: Seq::empty(),
        settings: Settings { source_path: path, ..default_settings() },
    }
}

/// The state after the first `n` lines, or the error in the first bad line.
pub open spec fn read_lines(path: Seq<char>, lines: Seq<Seq<char>>, n: int) -> Result<
    Reading,
    Seq<char>,
>
    decreases n,
{
    if n <= 0 {
        Ok(initial_reading(path))
    } else {
        match read_lines(path, lines, n - 1) {
            Err(error) => Err(error),
            Ok(state) => match read_line(state, lines[n - 1]) {
                Ok(next) => Ok(next),
                Err(message) => Err(line_error_text(path, n, message)),
            },
        }
    }
}

/// The settings that every configuration must give, in compact form.
pub open spec fn required_settings() -> Seq<Seq<char>> {
    seq!["algorithm"@, "xrange"@, "yrange"@, "zrange"@, "errortolerance"@]
}

/// The first required setting that was not given.
pub open spec fn first_missing(required: Seq<Seq<char>>, seen: Seq<Seq<char>>) -> Option<
    Seq<char>,
>
    decreases required.len(),
{
    if required.len() == 0 {
        None
    } else if !seen.contains(required[0]) {
        Some(required[0])
    } else {
        first_missing(required.drop_first(), seen)
    }
}

/// The settings that the text of a configuration file denotes. Lines end at line
/// feeds; a carriage return before one counts as white space at the end of the
/// line.
pub open spec fn loaded(path: Seq<char>, contents: Seq<char>) -> Result<Settings, Seq<char>> {
    let lines = split_all(contents, '\n');
    match read_lines(path, lines, lines.len() as int) {
        Err(error) => Err(error),
        Ok(state) => match first_missing(required_settings(), state.seen) {
            Some(name) => Err(path + ": missing required setting "@ + name),
            None => match validation_error(state.settings) {
                Some(message) => Err(path + ": "@ + message),
                None => Ok(state.settings),
            },
        },
    }
}

/// The state of a reader.
struct Reader {
    section: String,
    seen: Vec<String>,
    config: ScanConfig,
}

impl View for Reader {
    type V = Reading;

    closed spec fn view(&self) -> Reading {
        Reading {
            section: self.section@,
            seen: strings(self.seen@),
            settings: self.config@,
        }
    }
}

/// Tells whether a list holds a text.
fn contains_text(list: &Vec<String>, text: &str) -> (r: bool)
    ensures
        r == strings(list@).contains(text@),
{
    let ghost all = strings(list@);
    let mut i: usize = 0;
    while i < list.len()
        invariant
            i <= list.len(),
            all == strings(list@),
            forall|k: int| 0 <= k < i ==> #[trigger] all[k] != text@,
        decreases list.len() - i,
    {
        assert(all[i as int] == list@[i as int]@);
        if same_text(list[i].as_str(), text) {
            assert(all[i as int] == text@);
            return true;
        }
        i = i + 1;
    }
    assert(!all.contains(text@));
    false
}

/// Returns a line without its comment and without surrounding white space.
fn strip_line(line: &str) -> (content: &str)
    ensures
        content@ == line_content(line@),
{
    match split_once(line, '#') {
        Some((before, _)) => trim(before),
        None => {
            proof {
                lemma_find_bounds(line@, '#');
                assert(line@.take(find(line@, '#')) =~= line@);
            }
            trim(line)
        },
    }
}

impl Reader {
    /// Takes over one line. A bad line leaves the state as it is.
    fn read(&mut self, line: &str) -> (result: Result<(), String>)
        ensures
            match read_line(old(self)@, line@) {
                Ok(state) => result is Ok && final(self)@ == state,
                Err(message) => result matches Err(error) && error@ == message,
            },
    {
        let text: &str = strip_line(line);
        if text.is_empty() {
            return Ok(());
        }
        if let Some(name) = strip_enclosing(text, '[', ']') {
            let section: String = compact_name(name);
            if !same_text(section.as_str(), "filter") && !same_text(section.as_str(), "scan")
                && !same_text(section.as_str(), "settings") {
                return Err(quoted("unknown section '", name));
            }
            self.section = section;
            return Ok(());
        }
        if same_text(self.section.as_str(), "filter") {
            match parse_filter(text) {
                Ok(row) => {
                    self.config.filter.push(row);
                    return Ok(());
                },
                Err(error) => {
                    return Err(error);
                },
            }
        }
        let (key, value): (&str, &str) = match split_once(text, '=') {
            Some(parts) => parts,
            None => {
                return Err("expected key=value setting".to_owned());
            },
        };
        let key_name: String = compact_name(key);
        if contains_text(&self.seen, key_name.as_str()) {
            return Err(quoted("duplicate setting '", trim(key)));
        }
        match apply_setting(&mut self.config, key, key_name.as_str(), trim(value)) {
            Ok(()) => {},
            Err(error) => {
                return Err(error);
            },
        }
        let ghost before = self.seen@;
        self.seen.push(key_name);
        assert(strings(self.seen@) =~= strings(before).push(key_name@));
        Ok(())
    }
}

/// Returns an error message with the place of its line.
pub fn line_error(path: &str, line: usize, message: &str) -> (text: String)
    ensures
        text@ == line_error_text(path@, line as int, message@),
{
    let mut text: String = path.to_owned();
    text.append(":");
    push_nat(&mut text, line as u64);
    text.append(": ");
    text.append(message);
    text
}

/// A bad line spoils the whole configuration.
pub proof fn lemma_read_error(path: Seq<char>, lines: Seq<Seq<char>>, n: int, m: int)
    requires
        n <= m,
        read_lines(path, lines, n) is Err,
    ensures
        read_lines(path, lines, m) == read_lines(path, lines, n),
    decreases m - n,
{
    if n < m {
        lemma_read_error(path, lines, n, m - 1);
    }
}

/// A list of directions that was read holds distinct quarter turns.
proof fn lemma_directions_distinct(items: Seq<Seq<char>>, n: int)
    requires
        n >= 0,
    ensures
        directions_from(items, n) matches Ok(list) ==> {
            &&& list.len() == n
            &&& list.no_duplicates()
            &&& forall|i: int| 0 <= i < list.len() ==> is_quarter_turn(#[trigger] list[i] as int)
        },
    decreases n,
{
    if n > 0 {
        lemma_directions_distinct(items, n - 1);
        if directions_from(items, n) is Ok {
            let before = directions_from(items, n - 1)->Ok_0;
            let d = i32_value(trimmed(items[n - 1]))->Some_0 as i32;
            assert(!before.contains(d));
        }
    }
}

/// Reading a line keeps the settings well-formed.
proof fn lemma_read_line_well_formed(state: Reading, line: Seq<char>)
    requires
        state.settings.well_formed(),
    ensures
        read_line(state, line) matches Ok(next) ==> next.settings.well_formed(),
{
    let text = line_content(line);
    if read_line(state, line) is Ok && text.len() > 0 && enclosed(text, '[', ']') is None {
        if state.section == "filter"@ {
            assert(filter_value(text)->Ok_0.valid());
        } else {
            let (key, value) = split_at_first(text, '=')->Some_0;
            match enclosed(trimmed(trimmed(value)), '[', ']') {
                Some(contents) => {
                    let items = split_all(contents, ',');
                    lemma_split_not_empty(contents, ',');
                    lemma_directions_distinct(items, items.len() as int);
                },
                None => {},
            }
        }
    }
}

/// Reading lines keeps the settings well-formed.
pub proof fn lemma_read_lines_well_formed(path: Seq<char>, lines: Seq<Seq<char>>, n: int)
    ensures
        read_lines(path, lines, n) matches Ok(state) ==> state.settings.well_formed(),
    decreases n,
{
    if n > 0 {
        lemma_read_lines_well_formed(path, lines, n - 1);
        if read_lines(path, lines, n - 1) is Ok {
            lemma_read_line_well_formed(read_lines(path, lines, n - 1)->Ok_0, lines[n - 1]);
        }
    }
}

/// A configuration with its lists as sequences, or the contents of an error message.
pub open spec fn settings_outcome(result: Result<ScanConfig, String>) -> Result<
    Settings,
    Seq<char>,
> {
    match result {
        Ok(config) => Ok(config@),
        Err(error) => Err(error@),
    }
}

/// Returns the first required setting that was not given.
fn find_missing(seen: &Vec<String>) -> (missing: Option<&'static str>)
    ensures
        match missing {
            Some(name) => first_missing(required_settings(), strings(seen@)) == Some(name@),
            None => first_missing(required_settings(), strings(seen@)) is None,
        },
{
    proof {
        let required = required_settings();
        reveal_with_fuel(first_missing, 6);
        assert(required.drop_first()[0] == "xrange"@);
        assert(required.drop_first().drop_first()[0] == "yrange"@);
        assert(required.drop_first().drop_first().drop_first()[0] == "zrange"@);
        assert(required.drop_first().drop_first().drop_first().drop_first()[0]
            == "errortolerance"@);
    }
    if !contains_text(seen, "algorithm") {
        Some("algorithm")
    } else if !contains_text(seen, "xrange") {
        Some("xrange")
    } else if !contains_text(seen, "yrange") {
        Some("yrange")
    } else if !contains_text(seen, "zrange") {
        Some("zrange")
    } else if !contains_text(seen, "errortolerance") {
        Some("errortolerance")
    } else {
        None
    }
}

/// Parses and validates the contents of a scan configuration file. The path is
/// the one that error messages name.
pub fn load(path: &str, contents: &str) -> (result: Result<ScanConfig, String>)
    ensures
        settings_outcome(result) == loaded(path@, contents@),
        result matches Ok(config) ==> config@.well_formed() && validation_error(config@) is None,
{
    let mut config: ScanConfig = ScanConfig::default();
    config.source_path = path.to_owned();
    let mut reader: Reader = Reader { section: String::new(), seen: Vec::new(), config };
    assert(reader@ =~= initial_reading(path@));
    let lines: Vec<&str> = split(contents, '\n');
    let ghost all = split_all(contents@, '\n');
    let mut i: usize = 0;
    while i < lines.len()
        invariant
            i <= lines.len(),
            all == texts(lines@),
            all == split_all(contents@, '\n'),
            read_lines(path@, all, i as int) == Ok::<Reading, Seq<char>>(reader@),
        decreases lines.len() - i,
    {
        assert(all[i as int] == lines@[i as int]@);
        match reader.read(lines[i]) {
            Ok(()) => {},
            Err(error) => {
                proof {
                    lemma_read_error(path@, all, i + 1, all.len() as int);
                }
                return Err(line_error(path, i + 1, error.as_str()));
            },
        }
        i = i + 1;
    }
    proof {
        lemma_read_lines_well_formed(path@, all, all.len() as int);
    }
    if let Some(name) = find_missing(&reader.seen) {
        let mut message: String = path.to_owned();
        message.append(": missing required setting ");
        message.append(name);
        return Err(message);
    }
    match validate(&reader.config) {
        Ok(()) => Ok(reader.config),
        Err(error) => {
            let mut message: String = path.to_owned();
            message.append(": ");
            message.append(error.as_str());
            Err(message)
        },
    }
}

} // verus!
