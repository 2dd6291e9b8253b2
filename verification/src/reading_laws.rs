//! What the values of a configuration file mean: every reader is told by the texts
//! that it accepts and by what it makes of them.

use vstd::prelude::*;
use crate::config::{
    bool_value, compacted, directions_from, directions_value, filter_value, line_content,
    lowercase_of, pair_value, scan_order_value, tolerance_value, unicode_lowercase, ScanOrder,
};
use crate::number::{decimal, i8_value, integer_value, u8_value};
use crate::number_laws::{
    law_machine_numbers_round_trip, lemma_decimal_characters, lemma_decimal_not_empty,
};
use crate::text::{ascii_lowered, enclosed, is_space, split_all, split_at_first, trimmed, words_of};
use crate::text_laws::{
    has_solid_ends, is_blank, is_solid, lacks, law_blanks_are_no_words, law_enclosed,
    law_first_word, law_split_at_the_first, law_trimming_takes_the_surroundings,
};
use crate::types::{
    algorithm_name, algorithm_named, Face, RotationInfo, RotationKind, TextureAlgorithm,
};

verus! {

/// Two integers in round brackets, with a comma between them and white space where
/// one likes, are read as that pair.
pub proof fn law_pair_text(
    w0: Seq<char>,
    first: Seq<char>,
    second: Seq<char>,
    w1: Seq<char>,
    a: i32,
    b: i32,
)
    requires
        is_blank(w0),
        is_blank(w1),
        lacks(first, ','),
        integer_value(trimmed(first), true) == Some(a as int),
        integer_value(trimmed(second), true) == Some(b as int),
    ensures
        pair_value(w0 + (seq!['('] + (first + seq![','] + second) + seq![')']) + w1) == Ok::<
            (i32, i32),
            Seq<char>,
        >((a, b)),
{
    let contents = first + seq![','] + second;
    let value = seq!['('] + contents + seq![')'];
    assert(value[0] == '(' && value[value.len() - 1] == ')');
    law_trimming_takes_the_surroundings(w0, value, w1);
    law_enclosed(value, contents, '(', ')');
    law_split_at_the_first(first, ',', second);
}

/// What was read as a pair is two integers in round brackets, and the pair is what
/// they denote, in their order.
pub proof fn law_read_pairs(s: Seq<char>) -> (parts: (Seq<char>, Seq<char>))
    ensures
        pair_value(s) matches Ok((a, b)) ==> {
            &&& trimmed(s) == seq!['('] + (parts.0 + seq![','] + parts.1) + seq![')']
            &&& integer_value(trimmed(parts.0), true) == Some(a as int)
            &&& integer_value(trimmed(parts.1), true) == Some(b as int)
        },
{
    if pair_value(s) is Ok {
        let contents = enclosed(trimmed(s), '(', ')')->Some_0;
        let (first, second) = split_at_first(contents, ',')->Some_0;
        law_enclosed(trimmed(s), contents, '(', ')');
        crate::config_spelling::lemma_found(contents, ',');
        assert(contents =~= first + seq![','] + second);
        (first, second)
    } else {
        (s, s)
    }
}

/// A written number has solid ends and is one word.
proof fn lemma_number_is_solid(n: int)
    ensures
        is_solid(decimal(n)),
        has_solid_ends(decimal(n)),
        decimal(n).len() > 0,
        lacks(decimal(n), ','),
        lacks(decimal(n), '|'),
        lacks(decimal(n), '#'),
        lacks(decimal(n), '='),
{
    lemma_decimal_not_empty(n);
    assert forall|i: int| 0 <= i < decimal(n).len() implies !is_space(#[trigger] decimal(n)[i])
        && decimal(n)[i] != ',' && decimal(n)[i] != '|' && decimal(n)[i] != '#' && decimal(n)[i]
        != '=' by {
        lemma_decimal_characters(n, i);
    }
}

/// A written number with a blank in front of it is trimmed to the number.
proof fn lemma_number_trimmed(n: int)
    ensures
        trimmed(decimal(n)) == decimal(n),
        trimmed(seq![' '] + decimal(n)) == decimal(n),
{
    lemma_number_is_solid(n);
    let empty = Seq::<char>::empty();
    law_trimming_takes_the_surroundings(empty, decimal(n), empty);
    assert(empty + decimal(n) + empty =~= decimal(n));
    law_trimming_takes_the_surroundings(seq![' '], decimal(n), empty);
    assert(seq![' '] + decimal(n) + empty =~= seq![' '] + decimal(n));
}

/// The text of a pair of integers.
pub open spec fn pair_text(a: int, b: int) -> Seq<char> {
    seq!['('] + decimal(a) + seq![',', ' '] + decimal(b) + seq![')']
}

/// Every pair of integers is read back as it was written.
pub proof fn law_written_pairs_are_read(a: i32, b: i32)
    ensures
        pair_value(pair_text(a as int, b as int)) == Ok::<(i32, i32), Seq<char>>((a, b)),
{
    let empty = Seq::<char>::empty();
    let (first, second) = (decimal(a as int), seq![' '] + decimal(b as int));
    lemma_number_is_solid(a as int);
    lemma_number_trimmed(a as int);
    lemma_number_trimmed(b as int);
    law_machine_numbers_round_trip(a as int);
    law_machine_numbers_round_trip(b as int);
    law_pair_text(empty, first, second, empty, a, b);
    assert(empty + (seq!['('] + (first + seq![','] + second) + seq![')']) + empty =~= pair_text(
        a as int,
        b as int,
    ));
}

/// The list that was read so far.
proof fn lemma_directions_read(items: Seq<Seq<char>>, n: int, list: Seq<i32>)
    requires
        0 <= n <= items.len(),
    ensures
        directions_from(items, n) == Ok::<Seq<i32>, Seq<char>>(list) <==> {
            &&& list.len() == n
            &&& list.no_duplicates()
            &&& forall|i: int|
                0 <= i < n ==> integer_value(trimmed(#[trigger] items[i]), true) == Some(
                    list[i] as int,
                )
            &&& forall|i: int|
                0 <= i < n ==> #[trigger] list[i] == 0 || list[i] == 90 || list[i] == 180 || list[i]
                    == 270
        },
    decreases n,
{
    if n == 0 {
        if list.len() == 0 {
            assert(list =~= Seq::empty());
        }
    } else if list.len() == n {
        let before = list.drop_last();
        let d = list[n - 1];
        lemma_directions_read(items, n - 1, before);
        assert(before.push(d) =~= list);
        if directions_from(items, n) == Ok::<Seq<i32>, Seq<char>>(list) {
            let got = directions_from(items, n - 1)->Ok_0;
            assert(got =~= list.drop_last());
            assert(!before.contains(d));
            assert forall|i: int, j: int|
                0 <= i < list.len() && 0 <= j < list.len() && i != j implies list[i] != list[j] by {
                if i == n - 1 {
                    assert(before[j] == list[j]);
                    assert(before.contains(list[j]));
                } else if j == n - 1 {
                    assert(before[i] == list[i]);
                    assert(before.contains(list[i]));
                } else {
                    assert(before[i] == list[i] && before[j] == list[j]);
                }
            }
            assert forall|i: int| 0 <= i < n implies integer_value(
                trimmed(#[trigger] items[i]),
                true,
            ) == Some(list[i] as int) by {
                if i < n - 1 {
                    assert(before[i] == list[i]);
                }
            }
            assert forall|i: int| 0 <= i < n implies #[trigger] list[i] == 0 || list[i] == 90
                || list[i] == 180 || list[i] == 270 by {
                if i < n - 1 {
                    assert(before[i] == list[i]);
                }
            }
        }
        if {
            &&& list.no_duplicates()
            &&& forall|i: int|
                0 <= i < n ==> integer_value(trimmed(#[trigger] items[i]), true) == Some(
                    list[i] as int,
                )
            &&& forall|i: int|
                0 <= i < n ==> #[trigger] list[i] == 0 || list[i] == 90 || list[i] == 180 || list[i]
                    == 270
        } {
            assert(forall|i: int| 0 <= i < n - 1 ==> #[trigger] before[i] == list[i]);
            if before.contains(d) {
                let k = choose|k: int| 0 <= k < before.len() && before[k] == d;
                assert(list[k] == list[n - 1]);
            }
            assert(integer_value(trimmed(items[n - 1]), true) == Some(list[n - 1] as int));
            assert(list[n - 1] == 0 || list[n - 1] == 90 || list[n - 1] == 180 || list[n - 1]
                == 270);
        }
    } else if directions_from(items, n) is Ok {
        let got = directions_from(items, n)->Ok_0;
        lemma_directions_read(items, n - 1, directions_from(items, n - 1)->Ok_0);
        assert(got.len() == n);
    }
}

/// A list of directions is integers in square brackets with commas between them:
/// each is 0, 90, 180 or 270, none comes twice, and their order is kept. Nothing
/// else is read as a list of directions.
pub proof fn law_directions_text(s: Seq<char>, list: Seq<i32>)
    ensures
        directions_value(s) == Ok::<Seq<i32>, Seq<char>>(list) <==> {
            &&& enclosed(trimmed(s), '[', ']') matches Some(contents)
            &&& split_all(contents, ',').len() == list.len()
            &&& list.no_duplicates()
            &&& forall|i: int|
                0 <= i < list.len() ==> integer_value(
                    trimmed(#[trigger] split_all(contents, ',')[i]),
                    true,
                ) == Some(list[i] as int)
            &&& forall|i: int|
                0 <= i < list.len() ==> #[trigger] list[i] == 0 || list[i] == 90 || list[i] == 180
                    || list[i] == 270
        },
{
    match enclosed(trimmed(s), '[', ']') {
        Some(contents) => {
            let items = split_all(contents, ',');
            lemma_directions_read(items, items.len() as int, list);
        },
        None => {},
    }
}

/// The words that stand for a truth value, in letters of any case and with white
/// space around; no other text does.
pub proof fn law_truth_words(s: Seq<char>)
    ensures
        ({
            let word = ascii_lowered(trimmed(s));
            let yes = word == "true"@ || word == "yes"@ || word == "on"@ || word == "1"@;
            let no = word == "false"@ || word == "no"@ || word == "off"@ || word == "0"@;
            &&& bool_value(s) == Ok::<bool, Seq<char>>(true) <==> yes
            &&& bool_value(s) == Ok::<bool, Seq<char>>(false) <==> no
        }),
{
    reveal_strlit("true");
    reveal_strlit("yes");
    reveal_strlit("on");
    reveal_strlit("1");
    reveal_strlit("false");
    reveal_strlit("no");
    reveal_strlit("off");
    reveal_strlit("0");
    assert("true"@.len() == 4 && "yes"@.len() == 3 && "on"@.len() == 2 && "1"@.len() == 1);
    assert("false"@.len() == 5 && "no"@.len() == 2 && "off"@.len() == 3 && "0"@.len() == 1);
    assert("yes"@[0] == 'y' && "off"@[0] == 'o' && "on"@[0] == 'o' && "no"@[0] == 'n');
    assert("1"@[0] == '1' && "0"@[0] == '0');
}

/// The words that name a scan order, in letters of any case; no other text does.
pub proof fn law_scan_order_words(s: Seq<char>)
    ensures
        ({
            let word = ascii_lowered(s);
            &&& scan_order_value(s) == Ok::<ScanOrder, Seq<char>>(ScanOrder::Linear) <==> word
                == "linear"@ || word == "native"@
            &&& scan_order_value(s) == Ok::<ScanOrder, Seq<char>>(ScanOrder::Spiral) <==> word
                == "spiral"@
            &&& scan_order_value(s) == Ok::<ScanOrder, Seq<char>>(ScanOrder::ReverseSpiral) <==> word
                == "reverse-spiral"@
        }),
{
    reveal_strlit("linear");
    reveal_strlit("native");
    reveal_strlit("spiral");
    reveal_strlit("reverse-spiral");
    assert("linear"@[0] == 'l' && "native"@[0] == 'n' && "spiral"@[0] == 's');
    assert("reverse-spiral"@[0] == 'r');
}

/// A text names an algorithm where it is the name of that algorithm but for the case
/// of its letters; no other text does.
pub proof fn law_algorithm_words(s: Seq<char>, algorithm: TextureAlgorithm)
    ensures
        algorithm_named(s) == Ok::<TextureAlgorithm, Seq<char>>(algorithm) <==> ascii_lowered(s)
            == ascii_lowered(algorithm_name(algorithm)),
        algorithm_name(algorithm) == (match algorithm {
            TextureAlgorithm::Vanilla1 => "Vanilla-1"@,
            TextureAlgorithm::Vanilla2 => "Vanilla-2"@,
            TextureAlgorithm::Vanilla3 => "Vanilla-3"@,
            TextureAlgorithm::Sodium1 => "Sodium-1"@,
            TextureAlgorithm::Sodium2 => "Sodium-2"@,
        }),
{
    reveal_strlit("Vanilla-1");
    reveal_strlit("Vanilla-2");
    reveal_strlit("Vanilla-3");
    reveal_strlit("Sodium-1");
    reveal_strlit("Sodium-2");
    reveal_strlit("vanilla-1");
    reveal_strlit("vanilla-2");
    reveal_strlit("vanilla-3");
    reveal_strlit("sodium-1");
    reveal_strlit("sodium-2");
    assert(ascii_lowered("Vanilla-1"@) =~= "vanilla-1"@);
    assert(ascii_lowered("Vanilla-2"@) =~= "vanilla-2"@);
    assert(ascii_lowered("Vanilla-3"@) =~= "vanilla-3"@);
    assert(ascii_lowered("Sodium-1"@) =~= "sodium-1"@);
    assert(ascii_lowered("Sodium-2"@) =~= "sodium-2"@);
    assert("vanilla-1"@[8] == '1' && "vanilla-2"@[8] == '2' && "vanilla-3"@[8] == '3');
    assert("sodium-1"@[7] == '1' && "sodium-2"@[7] == '2');
    assert("sodium-1"@.len() == 8 && "sodium-2"@.len() == 8 && "vanilla-1"@.len() == 9);
    assert("vanilla-2"@.len() == 9 && "vanilla-3"@.len() == 9);
}

/// An error tolerance is a 32-bit integer, without white space around it.
pub proof fn law_tolerance_text(s: Seq<char>, n: i32)
    ensures
        tolerance_value(s) == Ok::<i32, Seq<char>>(n) <==> integer_value(s, true) == Some(n as int),
{
}

/// A marker in lower case stands for a kind of row.
pub open spec fn marks(word: Seq<char>, kind: RotationKind) -> bool {
    match kind {
        RotationKind::StandardFourWay => word == "normal"@ || word == "false"@ || word == "0"@,
        RotationKind::StandardSide => word == "side"@ || word == "true"@ || word == "1"@,
        RotationKind::Netherrack(Face::Up) => word == "netherrack-up"@,
        RotationKind::Netherrack(Face::Down) => word == "netherrack-down"@,
        RotationKind::Netherrack(Face::North) => word == "netherrack-north"@,
        RotationKind::Netherrack(Face::South) => word == "netherrack-south"@,
        RotationKind::Netherrack(Face::East) => word == "netherrack-east"@,
        RotationKind::Netherrack(Face::West) => word == "netherrack-west"@,
    }
}

/// The markers of different kinds are different.
pub proof fn lemma_markers_differ(word: Seq<char>, a: RotationKind, b: RotationKind)
    requires
        marks(word, a),
        marks(word, b),
    ensures
        a == b,
{
    reveal_strlit("normal");
    reveal_strlit("false");
    reveal_strlit("0");
    reveal_strlit("side");
    reveal_strlit("true");
    reveal_strlit("1");
    reveal_strlit("netherrack-up");
    reveal_strlit("netherrack-down");
    reveal_strlit("netherrack-north");
    reveal_strlit("netherrack-south");
    reveal_strlit("netherrack-east");
    reveal_strlit("netherrack-west");
    assert("normal"@.len() == 6 && "false"@.len() == 5 && "0"@.len() == 1 && "0"@[0] == '0');
    assert("side"@.len() == 4 && "true"@.len() == 4 && "1"@.len() == 1 && "1"@[0] == '1');
    assert("netherrack-up"@.len() == 13);
    assert("netherrack-down"@.len() == 15 && "netherrack-down"@[11] == 'd');
    assert("netherrack-north"@.len() == 16 && "netherrack-north"@[11] == 'n');
    assert("netherrack-south"@.len() == 16 && "netherrack-south"@[11] == 's');
    assert("netherrack-east"@.len() == 15 && "netherrack-east"@[11] == 'e');
    assert("netherrack-west"@.len() == 15 && "netherrack-west"@[11] == 'w');
}

/// A filter row is three offsets, a bar, a rotation and at most one marker, as words.
/// It is read as the offsets in their order, the rotation, and the kind that the
/// marker stands for; a rotation is at most 1 on a side face and at most 3 elsewhere.
/// Nothing else is read as a filter row.
pub proof fn law_row_text(s: Seq<char>, row: RotationInfo)
    ensures
        filter_value(s) == Ok::<RotationInfo, Seq<char>>(row) <==> {
            &&& split_at_first(s, '|') matches Some((left, right))
            &&& words_of(left).len() == 3
            &&& i8_value(words_of(left)[0]) == Some(row.x as int)
            &&& i8_value(words_of(left)[1]) == Some(row.y as int)
            &&& i8_value(words_of(left)[2]) == Some(row.z as int)
            &&& 1 <= words_of(right).len() <= 2
            &&& u8_value(words_of(right)[0]) == Some(row.rotation as int)
            &&& words_of(right).len() == 1 ==> row.kind == RotationKind::StandardFourWay
            &&& words_of(right).len() == 2 ==> marks(ascii_lowered(words_of(right)[1]), row.kind)
            &&& row.rotation <= (if row.kind == RotationKind::StandardSide {
                1int
            } else {
                3
            })
        },
{
    match split_at_first(s, '|') {
        Some((left, right)) => {
            let (ls, rs) = (words_of(left), words_of(right));
            if rs.len() == 2 {
                let word = ascii_lowered(rs[1]);
                match crate::config::marker_kind(word) {
                    Some(kind) => {
                        assert(marks(word, kind));
                        if marks(word, row.kind) {
                            lemma_markers_differ(word, kind, row.kind);
                        }
                    },
                    None => {
                        assert(!marks(word, row.kind));
                    },
                }
            }
        },
        None => {},
    }
}

/// The word that marks a kind of row.
pub open spec fn marker_word(kind: RotationKind) -> Seq<char> {
    match kind {
        RotationKind::StandardFourWay => "normal"@,
        RotationKind::StandardSide => "side"@,
        RotationKind::Netherrack(Face::Up) => "netherrack-up"@,
        RotationKind::Netherrack(Face::Down) => "netherrack-down"@,
        RotationKind::Netherrack(Face::North) => "netherrack-north"@,
        RotationKind::Netherrack(Face::South) => "netherrack-south"@,
        RotationKind::Netherrack(Face::East) => "netherrack-east"@,
        RotationKind::Netherrack(Face::West) => "netherrack-west"@,
    }
}

/// The text of a filter row.
pub open spec fn row_text(row: RotationInfo) -> Seq<char> {
    decimal(row.x as int) + seq![' '] + (decimal(row.y as int) + seq![' '] + (decimal(row.z as int)
        + seq![' '])) + seq!['|'] + (seq![' '] + (decimal(row.rotation as int) + seq![' ']
        + marker_word(row.kind)))
}

/// A marker is one word in lower case.
proof fn lemma_marker_word(kind: RotationKind)
    ensures
        is_solid(marker_word(kind)),
        marker_word(kind).len() > 0,
        ascii_lowered(marker_word(kind)) == marker_word(kind),
        marks(marker_word(kind), kind),
{
    reveal_strlit("normal");
    reveal_strlit("side");
    reveal_strlit("netherrack-up");
    reveal_strlit("netherrack-down");
    reveal_strlit("netherrack-north");
    reveal_strlit("netherrack-south");
    reveal_strlit("netherrack-east");
    reveal_strlit("netherrack-west");
    assert(ascii_lowered(marker_word(kind)) =~= marker_word(kind));
}

/// Every filter row that asks for a rotation that exists is read back as it was
/// written.
pub proof fn law_written_rows_are_read(row: RotationInfo)
    requires
        row.rotation <= (if row.kind == RotationKind::StandardSide {
            1int
        } else {
            3
        }),
    ensures
        filter_value(row_text(row)) == Ok::<RotationInfo, Seq<char>>(row),
{
    let (x, y, z, r) = (
        decimal(row.x as int),
        decimal(row.y as int),
        decimal(row.z as int),
        decimal(row.rotation as int),
    );
    let m = marker_word(row.kind);
    lemma_number_is_solid(row.x as int);
    lemma_number_is_solid(row.y as int);
    lemma_number_is_solid(row.z as int);
    lemma_number_is_solid(row.rotation as int);
    lemma_marker_word(row.kind);
    law_machine_numbers_round_trip(row.x as int);
    law_machine_numbers_round_trip(row.y as int);
    law_machine_numbers_round_trip(row.z as int);
    law_machine_numbers_round_trip(row.rotation as int);
    let blank = seq![' '];
    let tail = z + blank;
    let middle = y + blank + tail;
    let left = x + blank + middle;
    let right = blank + (r + blank + m);
    assert(lacks(left, '|'));
    law_split_at_the_first(left, '|', right);
    let empty = Seq::<char>::empty();
    assert(tail =~= z + blank + empty);
    law_first_word(z, ' ', empty);
    law_blanks_are_no_words(empty, empty);
    law_first_word(y, ' ', tail);
    law_first_word(x, ' ', middle);
    law_blanks_are_no_words(blank, r + blank + m);
    law_first_word(r, ' ', m);
    law_first_word(m, ' ', empty);
    assert(words_of(left)[0] == x && words_of(left)[1] == y && words_of(left)[2] == z);
    assert(words_of(left).len() == 3);
    assert(words_of(right)[0] == r && words_of(right)[1] == m && words_of(right).len() == 2);
    law_row_text(row_text(row), row);
}

/// A line without a hash is its text without the white space around it.
pub proof fn law_lines_without_comment(line: Seq<char>)
    requires
        lacks(line, '#'),
    ensures
        line_content(line) == trimmed(line),
{
    law_split_at_the_first(line, '#', line);
    crate::text::lemma_find_bounds(line, '#');
    assert(line.take(line.len() as int) =~= line);
}

/// In a name a space, an underscore, a hyphen or a dot vanishes, an ASCII letter
/// becomes small, any other ASCII character stays, and a character beyond ASCII
/// becomes its lower-case form.
pub proof fn law_characters_of_names(c: char)
    ensures
        c == ' ' || c == '_' || c == '-' || c == '.' ==> compacted(seq![c]) == Seq::<char>::empty(),
        !(c == ' ' || c == '_' || c == '-' || c == '.') && (c as u32) < 128 ==> compacted(seq![c])
            == ascii_lowered(seq![c]),
        (c as u32) >= 128 ==> compacted(seq![c]) == unicode_lowercase(c),
{
    let s = seq![c];
    assert(s.drop_last() =~= Seq::<char>::empty());
    assert(compacted(s.drop_last()) =~= Seq::<char>::empty());
    assert(Seq::<char>::empty() + lowercase_of(c) =~= lowercase_of(c));
    assert(ascii_lowered(s) =~= seq![crate::text::ascii_lower(c)]);
}

} // verus!
