//! The finger-name and scan-type wire vocabularies of the fingerprint daemon's D-Bus contract,
//! and the one-digit file names under which the print store keeps each finger.

use vstd::prelude::*;

verus! {

/// Whether two strings hold the same characters.
pub fn str_eq(a: &str, b: &str) -> (r: bool)
    ensures
        r == (a@ == b@),
{
    let n = a.unicode_len();
    if n != b.unicode_len() {
        return false;
    }
    let mut i: usize = 0;
    while i < n
        invariant
            n == a@.len() && n == b@.len(),
            i <= n,
            forall|j: int| 0 <= j < i ==> a@[j] == b@[j],
        decreases n - i,
    {
        if a.get_char(i) != b.get_char(i) {
            return false;
        }
        i += 1;
    }
    assert(a@ =~= b@);
    true
}

/// A finger, or no finger in particular.
#[derive(Clone, Copy, Debug, PartialEq, Eq, Structural)]
pub enum Finger {
    /// No specific finger (`"any"`).
    Unknown,
    /// Left thumb.
    LeftThumb,
    /// Left index finger.
    LeftIndex,
    /// Left middle finger.
    LeftMiddle,
    /// Left ring finger.
    LeftRing,
    /// Left little finger.
    LeftLittle,
    /// Right thumb.
    RightThumb,
    /// Right index finger.
    RightIndex,
    /// Right middle finger.
    RightMiddle,
    /// Right ring finger.
    RightRing,
    /// Right little finger.
    RightLittle,
}

/// How a sensor is used.
#[derive(Clone, Copy, Debug, PartialEq, Eq, Structural)]
pub enum ScanType {
    /// The finger is swiped across the sensor.
    Swipe,
    /// The finger is pressed on the sensor.
    Press,
}

/// Every finger, in number order.
pub open spec fn all_fingers() -> Seq<Finger> {
    seq![
        Finger::Unknown,
        Finger::LeftThumb,
        Finger::LeftIndex,
        Finger::LeftMiddle,
        Finger::LeftRing,
        Finger::LeftLittle,
        Finger::RightThumb,
        Finger::RightIndex,
        Finger::RightMiddle,
        Finger::RightRing,
        Finger::RightLittle,
    ]
}

/// The wire name of each finger, in number order.
pub open spec fn finger_names() -> Seq<Seq<char>> {
    seq![
        "any"@,
        "left-thumb"@,
        "left-index-finger"@,
        "left-middle-finger"@,
        "left-ring-finger"@,
        "left-little-finger"@,
        "right-thumb"@,
        "right-index-finger"@,
        "right-middle-finger"@,
        "right-ring-finger"@,
        "right-little-finger"@,
    ]
}

/// The finger's number: `0` for no finger, then left thumb to right little finger as `1..=10`.
pub open spec fn finger_num(f: Finger) -> int {
    match f {
        Finger::Unknown => 0,
        Finger::LeftThumb => 1,
        Finger::LeftIndex => 2,
        Finger::LeftMiddle => 3,
        Finger::LeftRing => 4,
        Finger::LeftLittle => 5,
        Finger::RightThumb => 6,
        Finger::RightIndex => 7,
        Finger::RightMiddle => 8,
        Finger::RightRing => 9,
        Finger::RightLittle => 10,
    }
}

/// The finger whose wire name is `s`, if any.
pub open spec fn finger_named(s: Seq<char>) -> Option<Finger> {
    if exists|k: int| 0 <= k < 11 && finger_names()[k] == s {
        let k = choose|k: int| 0 <= k < 11 && finger_names()[k] == s;
        Some(all_fingers()[k])
    } else {
        None
    }
}

/// The wire name of `f` (`"any"` for no finger).
pub fn finger_dbus_name(f: Finger) -> (s: &'static str)
    ensures
        s@ == finger_names()[finger_num(f)],
        s@ == match f {
            Finger::Unknown => "any"@,
            Finger::LeftThumb => "left-thumb"@,
            Finger::LeftIndex => "left-index-finger"@,
            Finger::LeftMiddle => "left-middle-finger"@,
            Finger::LeftRing => "left-ring-finger"@,
            Finger::LeftLittle => "left-little-finger"@,
            Finger::RightThumb => "right-thumb"@,
            Finger::RightIndex => "right-index-finger"@,
            Finger::RightMiddle => "right-middle-finger"@,
            Finger::RightRing => "right-ring-finger"@,
            Finger::RightLittle => "right-little-finger"@,
        },
{
    match f {
        Finger::Unknown => "any",
        Finger::LeftThumb => "left-thumb",
        Finger::LeftIndex => "left-index-finger",
        Finger::LeftMiddle => "left-middle-finger",
        Finger::LeftRing => "left-ring-finger",
        Finger::LeftLittle => "left-little-finger",
        Finger::RightThumb => "right-thumb",
        Finger::RightIndex => "right-index-finger",
        Finger::RightMiddle => "right-middle-finger",
        Finger::RightRing => "right-ring-finger",
        Finger::RightLittle => "right-little-finger",
    }
}

/// The wire names are pairwise distinct.
proof fn lemma_names_distinct()
    ensures
        forall|a: int, b: int| 0 <= a < 11 && 0 <= b < 11 && a != b ==> finger_names()[a] != finger_names()[b],
{
    reveal_strlit("any");
    reveal_strlit("left-thumb");
    reveal_strlit("left-index-finger");
    reveal_strlit("left-middle-finger");
    reveal_strlit("left-ring-finger");
    reveal_strlit("left-little-finger");
    reveal_strlit("right-thumb");
    reveal_strlit("right-index-finger");
    reveal_strlit("right-middle-finger");
    reveal_strlit("right-ring-finger");
    reveal_strlit("right-little-finger");
    let n = finger_names();
    assert forall|a: int, b: int| 0 <= a < 11 && 0 <= b < 11 && a != b implies n[a] != n[b] by {
        if n[a] == n[b] {
            assert(n[a].len() == n[b].len());
            assert(n[a][0] == n[b][0]);
            if n[a].len() > 5 {
                assert(n[a][5] == n[b][5]);
                assert(n[a][6] == n[b][6]);
                if n[a].len() > 8 {
                    assert(n[a][8] == n[b][8]);
                }
            }
        }
    }
}

/// The finger named `n`-th in the vocabulary is the `n`-th finger.
proof fn lemma_named_at(k: int)
    requires
        0 <= k < 11,
    ensures
        finger_named(finger_names()[k]) == Some(all_fingers()[k]),
{
    lemma_names_distinct();
    assert(finger_names()[k] == finger_names()[k]);
}

/// Parse a wire finger name (`"any"` is no finger in particular); `None` outside the vocabulary.
pub fn finger_from_dbus_name(s: &str) -> (r: Option<Finger>)
    ensures
        r == finger_named(s@),
{
    proof {
        lemma_names_distinct();
    }
    let fingers = [
        Finger::Unknown,
        Finger::LeftThumb,
        Finger::LeftIndex,
        Finger::LeftMiddle,
        Finger::LeftRing,
        Finger::LeftLittle,
        Finger::RightThumb,
        Finger::RightIndex,
        Finger::RightMiddle,
        Finger::RightRing,
        Finger::RightLittle,
    ];
    let mut k: usize = 0;
    while k < 11
        invariant
            k <= 11,
            fingers@ == all_fingers(),
            forall|j: int| 0 <= j < k ==> finger_names()[j] != s@,
        decreases 11 - k,
    {
        let name = finger_dbus_name(fingers[k]);
        proof {
            assert(finger_num(all_fingers()[k as int]) == k);
        }
        if str_eq(s, name) {
            proof {
                lemma_named_at(k as int);
            }
            return Some(fingers[k]);
        }
        k += 1;
    }
    None
}

/// Every finger's wire name parses back to that finger, and `"any"` is no finger in particular.
pub proof fn lemma_finger_names_round_trip(f: Finger)
    ensures
        finger_named(finger_names()[finger_num(f)]) == Some(f),
        finger_named("any"@) == Some(Finger::Unknown),
{
    lemma_named_at(finger_num(f));
    lemma_named_at(0);
}

/// The wire vocabulary, word by word: each name parses to its own finger, `"any"` to no finger
/// in particular, and the vocabulary's table agrees.
pub proof fn lemma_wire_vocabulary()
    ensures
        finger_named("any"@) == Some(Finger::Unknown),
        finger_named("left-thumb"@) == Some(Finger::LeftThumb),
        finger_named("left-index-finger"@) == Some(Finger::LeftIndex),
        finger_named("left-middle-finger"@) == Some(Finger::LeftMiddle),
        finger_named("left-ring-finger"@) == Some(Finger::LeftRing),
        finger_named("left-little-finger"@) == Some(Finger::LeftLittle),
        finger_named("right-thumb"@) == Some(Finger::RightThumb),
        finger_named("right-index-finger"@) == Some(Finger::RightIndex),
        finger_named("right-middle-finger"@) == Some(Finger::RightMiddle),
        finger_named("right-ring-finger"@) == Some(Finger::RightRing),
        finger_named("right-little-finger"@) == Some(Finger::RightLittle),
{
    lemma_named_at(0);
    lemma_named_at(1);
    lemma_named_at(2);
    lemma_named_at(3);
    lemma_named_at(4);
    lemma_named_at(5);
    lemma_named_at(6);
    lemma_named_at(7);
    lemma_named_at(8);
    lemma_named_at(9);
    lemma_named_at(10);
    assert(finger_named(finger_names()[0]) == Some(all_fingers()[0]));
    assert(finger_named(finger_names()[1]) == Some(all_fingers()[1]));
    assert(finger_named(finger_names()[2]) == Some(all_fingers()[2]));
    assert(finger_named(finger_names()[3]) == Some(all_fingers()[3]));
    assert(finger_named(finger_names()[4]) == Some(all_fingers()[4]));
    assert(finger_named(finger_names()[5]) == Some(all_fingers()[5]));
    assert(finger_named(finger_names()[6]) == Some(all_fingers()[6]));
    assert(finger_named(finger_names()[7]) == Some(all_fingers()[7]));
    assert(finger_named(finger_names()[8]) == Some(all_fingers()[8]));
    assert(finger_named(finger_names()[9]) == Some(all_fingers()[9]));
    assert(finger_named(finger_names()[10]) == Some(all_fingers()[10]));
}

/// The `scan-type` property string of a sensor.
pub fn scan_type_dbus_str(s: ScanType) -> (r: &'static str)
    ensures
        r@ == match s {
            ScanType::Swipe => "swipe"@,
            ScanType::Press => "press"@,
        },
{
    match s {
        ScanType::Swipe => "swipe",
        ScanType::Press => "press",
    }
}

/// The lower-case hex digit naming `n` (`0..16`).
pub open spec fn hex_digit(n: int) -> char {
    if n < 10 {
        (('0' as int) + n) as char
    } else {
        (('a' as int) + n - 10) as char
    }
}

/// The file name under which the store keeps a finger's print: its number as one lower-case hex
/// digit.
pub fn finger_file_char(f: Finger) -> (c: char)
    ensures
        c == hex_digit(finger_num(f)),
{
    match f {
        Finger::Unknown => '0',
        Finger::LeftThumb => '1',
        Finger::LeftIndex => '2',
        Finger::LeftMiddle => '3',
        Finger::LeftRing => '4',
        Finger::LeftLittle => '5',
        Finger::RightThumb => '6',
        Finger::RightIndex => '7',
        Finger::RightMiddle => '8',
        Finger::RightRing => '9',
        Finger::RightLittle => 'a',
    }
}

/// The real finger a stored file is named after: a single hex digit naming a finger other than
/// "no finger"; `None` for any other name (a temporary file, say).
pub open spec fn finger_of_file(name: Seq<char>) -> Option<Finger> {
    if name.len() == 1 && exists|k: int| 1 <= k < 11 && hex_digit(k) == name[0] {
        let k = choose|k: int| 1 <= k < 11 && hex_digit(k) == name[0];
        Some(all_fingers()[k])
    } else {
        None
    }
}

/// Parse a stored file's name back to the real finger it holds (see [`finger_of_file`]).
pub fn finger_from_file_name(name: &str) -> (r: Option<Finger>)
    ensures
        r == finger_of_file(name@),
        r matches Some(f) ==> f != Finger::Unknown,
{
    if name.unicode_len() != 1 {
        return None;
    }
    let c = name.get_char(0);
    let fingers = [
        Finger::Unknown,
        Finger::LeftThumb,
        Finger::LeftIndex,
        Finger::LeftMiddle,
        Finger::LeftRing,
        Finger::LeftLittle,
        Finger::RightThumb,
        Finger::RightIndex,
        Finger::RightMiddle,
        Finger::RightRing,
        Finger::RightLittle,
    ];
    let mut k: usize = 1;
    while k < 11
        invariant
            1 <= k <= 11,
            fingers@ == all_fingers(),
            c == name@[0] && name@.len() == 1,
            forall|j: int| 1 <= j < k ==> hex_digit(j) != c,
        decreases 11 - k,
    {
        let d = finger_file_char(fingers[k]);
        proof {
            assert(finger_num(all_fingers()[k as int]) == k);
        }
        if d == c {
            proof {
                assert forall|j: int| 1 <= j < 11 && hex_digit(j) == c implies j == k by {
                    assert(hex_digit(j) == hex_digit(k as int));
                }
            }
            return Some(fingers[k]);
        }
        k += 1;
    }
    None
}

/// A finger's file name parses back to the finger, for every real finger.
pub proof fn lemma_file_names_round_trip(f: Finger)
    requires
        f != Finger::Unknown,
    ensures
        finger_of_file(seq![hex_digit(finger_num(f))]) == Some(f),
{
    let k = finger_num(f);
    let name = seq![hex_digit(k)];
    assert(1 <= k < 11 && hex_digit(k) == name[0]);
    assert forall|j: int| 1 <= j < 11 && hex_digit(j) == name[0] implies j == k by {
    }
    assert(all_fingers()[k] == f);
}

} // verus!
