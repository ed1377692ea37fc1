//! Code point names: an exact table first, then a short list of blocks whose
//! members share one label, then a fixed sentinel.

use vstd::prelude::*;

verus! {

/// The name the table holds for a code point, if it holds one.
pub uninterp spec fn table_name(c: u32) -> Option<Seq<char>>;

/// Looks a code point up in the names that the `charname` crate holds.
///
/// Calls `charname::get_name_checked`, which answers for the code points
/// that its data file lists one by one and for the members of the blocks
/// that it labels as a whole. The contract gives the result a name,
/// `table_name`, and claims one fact about it: a name that is present is
/// not empty, as every entry of the data file has a name and so has every
/// block.
#[verifier::external_body]
fn table_lookup(c: u32) -> (found: Option<&'static str>)
    ensures
        found is Some <==> table_name(c) is Some,
        found matches Some(s) ==> table_name(c) == Some(s@) && s@.len() > 0,
{
    charname::get_name_checked(c)
}

/// Number of fallback blocks.
pub const RANGE_COUNT: usize = 15;

/// The fallback blocks as inclusive `(lo, hi)` pairs, in the order in which
/// they are tried.
pub open spec fn fallback_ranges() -> Seq<(u32, u32)> {
    seq![
        (0x3400u32, 0x4DB5u32),
        (0x4E00u32, 0x9FD5u32),
        (0xAC00u32, 0xD7A3u32),
        (0xD800u32, 0xDB7Fu32),
        (0xDB80u32, 0xDBFFu32),
        (0xDC00u32, 0xDFFFu32),
        (0xE000u32, 0xF8FFu32),
        (0x17000u32, 0x187ECu32),
        (0x20000u32, 0x2A6D6u32),
        (0x2A700u32, 0x2B734u32),
        (0x2B740u32, 0x2B81Du32),
        (0x2B820u32, 0x2CEA1u32),
        (0x2CEB0u32, 0x2EBE0u32),
        (0xF0000u32, 0xFFFFDu32),
        (0x100000u32, 0x10FFFDu32),
    ]
}

/// The label shared by the members of block `i`.
pub open spec fn fallback_label(i: int) -> Seq<char> {
    if i == 0 {
        "CJK Ideograph Extension A"@
    } else if i == 1 {
        "CJK Ideograph"@
    } else if i == 2 {
        "Hangul Syllable"@
    } else if i == 3 {
        "Non Private Use High Surrogate"@
    } else if i == 4 {
        "Private Use High Surrogate"@
    } else if i == 5 {
        "Low Surrogate"@
    } else if i == 6 {
        "Private Use"@
    } else if i == 7 {
        "Tangut Ideograph"@
    } else if i == 8 {
        "CJK Ideograph Extension B"@
    } else if i == 9 {
        "CJK Ideograph Extension C"@
    } else if i == 10 {
        "CJK Ideograph Extension D"@
    } else if i == 11 {
        "CJK Ideograph Extension E"@
    } else if i == 12 {
        "CJK Ideograph Extension F"@
    } else if i == 13 {
        "Plane 15 Private Use"@
    } else {
        "Plane 16 Private Use"@
    }
}

/// The name given to a code point that neither the table nor a block covers.
pub open spec fn unknown_name() -> Seq<char> {
    "UNKNOWN CHARACTER"@
}

/// Whether block `i` exists and contains `c`.
pub open spec fn in_range(c: u32, i: int) -> bool {
    &&& 0 <= i < fallback_ranges().len()
    &&& fallback_ranges()[i].0 <= c <= fallback_ranges()[i].1
}

/// The block that contains `c`, if any.
pub open spec fn range_of(c: u32) -> Option<int> {
    if exists|i: int| in_range(c, i) {
        Some(choose|i: int| in_range(c, i))
    } else {
        None
    }
}

/// The name of a code point that the table does not hold.
pub open spec fn fallback_name(c: u32) -> Seq<char> {
    match range_of(c) {
        Some(i) => fallback_label(i),
        None => unknown_name(),
    }
}

/// Whether the table or a fallback block gives the code point a name.
pub open spec fn is_known(c: u32) -> bool {
    table_name(c) is Some || range_of(c) is Some
}

/// The display name of a code point.
pub open spec fn resolved_name(c: u32) -> Seq<char> {
    match table_name(c) {
        Some(name) => name,
        None => fallback_name(c),
    }
}

/// The fallback blocks are listed in ascending order with a gap between
/// neighbours, so no two of them share a code point.
pub proof fn lemma_ranges_disjoint()
    ensures
        fallback_ranges().len() == RANGE_COUNT,
        forall|i: int|
            0 <= i < fallback_ranges().len() ==> (#[trigger] fallback_ranges()[i]).0
                <= fallback_ranges()[i].1,
        forall|i: int, j: int|
            0 <= i < j < fallback_ranges().len() ==> (#[trigger] fallback_ranges()[i]).1 < (
            #[trigger] fallback_ranges()[j]).0,
        forall|c: u32, i: int, j: int| in_range(c, i) && in_range(c, j) ==> i == j,
{
}

/// The block of a code point is the one block that contains it.
pub proof fn lemma_range_of(c: u32, i: int)
    requires
        in_range(c, i),
    ensures
        range_of(c) == Some(i),
        fallback_name(c) == fallback_label(i),
{
    lemma_ranges_disjoint();
}

/// Bounds of block `i`.
fn range_at(i: usize) -> (bounds: (u32, u32))
    requires
        i < RANGE_COUNT,
    ensures
        bounds == fallback_ranges()[i as int],
{
    if i == 0 {
        (0x3400, 0x4DB5)
    } else if i == 1 {
        (0x4E00, 0x9FD5)
    } else if i == 2 {
        (0xAC00, 0xD7A3)
    } else if i == 3 {
        (0xD800, 0xDB7F)
    } else if i == 4 {
        (0xDB80, 0xDBFF)
    } else if i == 5 {
        (0xDC00, 0xDFFF)
    } else if i == 6 {
        (0xE000, 0xF8FF)
    } else if i == 7 {
        (0x17000, 0x187EC)
    } else if i == 8 {
        (0x20000, 0x2A6D6)
    } else if i == 9 {
        (0x2A700, 0x2B734)
    } else if i == 10 {
        (0x2B740, 0x2B81D)
    } else if i == 11 {
        (0x2B820, 0x2CEA1)
    } else if i == 12 {
        (0x2CEB0, 0x2EBE0)
    } else if i == 13 {
        (0xF0000, 0xFFFFD)
    } else {
        (0x100000, 0x10FFFD)
    }
}

/// Label of block `i`.
fn label_at(i: usize) -> (label: &'static str)
    requires
        i < RANGE_COUNT,
    ensures
        label@ == fallback_label(i as int),
{
    if i == 0 {
        "CJK Ideograph Extension A"
    } else if i == 1 {
        "CJK Ideograph"
    } else if i == 2 {
        "Hangul Syllable"
    } else if i == 3 {
        "Non Private Use High Surrogate"
    } else if i == 4 {
        "Private Use High Surrogate"
    } else if i == 5 {
        "Low Surrogate"
    } else if i == 6 {
        "Private Use"
    } else if i == 7 {
        "Tangut Ideograph"
    } else if i == 8 {
        "CJK Ideograph Extension B"
    } else if i == 9 {
        "CJK Ideograph Extension C"
    } else if i == 10 {
        "CJK Ideograph Extension D"
    } else if i == 11 {
        "CJK Ideograph Extension E"
    } else if i == 12 {
        "CJK Ideograph Extension F"
    } else if i == 13 {
        "Plane 15 Private Use"
    } else {
        "Plane 16 Private Use"
    }
}

/// Finds the fallback block that contains `c`.
pub fn find_range(c: u32) -> (found: Option<usize>)
    ensures
        found is Some <==> exists|i: int| in_range(c, i),
        found matches Some(i) ==> in_range(c, i as int) && range_of(c) == Some(i as int),
        found is None ==> range_of(c) is None,
{
    proof {
        lemma_ranges_disjoint();
    }
    let mut i: usize = 0;
    while i < RANGE_COUNT
        invariant
            i <= RANGE_COUNT,
            fallback_ranges().len() == RANGE_COUNT,
            forall|k: int| 0 <= k < i ==> !in_range(c, k),
            forall|c2: u32, a: int, b: int| in_range(c2, a) && in_range(c2, b) ==> a == b,
        decreases RANGE_COUNT - i,
    {
        let bounds = range_at(i);
        if bounds.0 <= c && c <= bounds.1 {
            assert(in_range(c, i as int));
            return Some(i);
        }
        i += 1;
    }
    None
}

/// Every block label, and the sentinel, has at least one character.
pub proof fn lemma_labels_nonempty()
    ensures
        forall|i: int| (#[trigger] fallback_label(i)).len() > 0,
        unknown_name().len() > 0,
{
    reveal_strlit("CJK Ideograph Extension A");
    reveal_strlit("CJK Ideograph");
    reveal_strlit("Hangul Syllable");
    reveal_strlit("Non Private Use High Surrogate");
    reveal_strlit("Private Use High Surrogate");
    reveal_strlit("Low Surrogate");
    reveal_strlit("Private Use");
    reveal_strlit("Tangut Ideograph");
    reveal_strlit("CJK Ideograph Extension B");
    reveal_strlit("CJK Ideograph Extension C");
    reveal_strlit("CJK Ideograph Extension D");
    reveal_strlit("CJK Ideograph Extension E");
    reveal_strlit("CJK Ideograph Extension F");
    reveal_strlit("Plane 15 Private Use");
    reveal_strlit("Plane 16 Private Use");
    reveal_strlit("UNKNOWN CHARACTER");
}

/// Settles the name of a code point, given what the table holds for it:
/// the entry where there is one, else the label of the fallback block that
/// contains the code point, else the sentinel. The flag tells whether the
/// code point is known, that is, whether the table or a block names it.
pub fn name_with_entry(entry: Option<&'static str>, c: u32) -> (found: (&'static str, bool))
    ensures
        found.0@ == match entry {
            Some(name) => name@,
            None => fallback_name(c),
        },
        found.1 == (entry is Some || range_of(c) is Some),
        entry is None ==> found.0@.len() > 0,
{
    match entry {
        Some(name) => (name, true),
        None => {
            proof {
                lemma_labels_nonempty();
            }
            match find_range(c) {
                Some(i) => (label_at(i), true),
                None => ("UNKNOWN CHARACTER", false),
            }
        },
    }
}

/// Returns the display name of a code point together with whether the
/// code point is known, that is, whether the table or a fallback block
/// names it.
pub fn lookup_name(c: u32) -> (found: (&'static str, bool))
    ensures
        found.0@ == resolved_name(c),
        found.0@.len() > 0,
        found.1 == is_known(c),
{
    name_with_entry(table_lookup(c), c)
}

/// Returns the display name of a code point: the table's entry where there
/// is one, else the label of the fallback block that contains it, else
/// `"UNKNOWN CHARACTER"`.
pub fn get_name(c: u32) -> (name: &'static str)
    ensures
        name@ == resolved_name(c),
        name@.len() > 0,
        table_name(c) matches Some(entry) ==> name@ == entry,
        forall|i: int| table_name(c) is None && in_range(c, i) ==> name@ == fallback_label(i),
        table_name(c) is None && (forall|i: int| !in_range(c, i)) ==> name@ == unknown_name(),
{
    proof {
        lemma_ranges_disjoint();
    }
    lookup_name(c).0
}

} // verus!
