//! The character breakdown: one annotated line per character, bounded by a
//! byte budget and by a cap on the number of lines, with a fixed notice in
//! place of whatever did not fit.

use crate::digits::{hex_upper, push_numeral, push_padded_numeral, zero_padded};
use crate::unicode::{is_known, lookup_name, resolved_name};
use vstd::prelude::*;
use vstd::string::StringExecFns;
use vstd::utf8::encode_utf8;

verus! {

/// The two bounds on a breakdown.
#[derive(Clone, Copy, Debug)]
pub struct Limits {
    /// The encoded text of the rendered lines stays below this many bytes.
    pub max_bytes: usize,
    /// At most this many lines are rendered.
    pub max_entities: usize,
}

/// A rendered breakdown.
#[derive(Debug)]
pub struct Breakdown {
    /// The rendered lines, followed by the notice if anything was cut.
    pub text: String,
    /// Whether some character of the input was left out.
    pub truncated: bool,
    /// Whether some rendered character has no name of its own.
    pub unresolved: bool,
}

/// The bounds that a chat message imposes: 4000 bytes and 50 links.
pub open spec fn default_limits() -> Limits {
    Limits { max_bytes: 4000, max_entities: 50 }
}

/// Length of the UTF-8 encoding of a text.
pub open spec fn byte_len(s: Seq<char>) -> nat {
    encode_utf8(s).len()
}

/// The line that describes a character of a given name: its code point in
/// upper-case hexadecimal with at least four digits, the name, and a link
/// to the page of the code point.
pub open spec fn named_line_text(c: char, name: Seq<char>) -> Seq<char> {
    "`U+"@ + zero_padded(hex_upper(c as u32 as nat), 4) + "` ["@ + name
        + "](https://fileformat.info/info/unicode/char/"@ + hex_upper(c as u32 as nat) + ")\n"@
}

/// The line that describes one character under its display name.
pub open spec fn line_text(c: char) -> Seq<char> {
    named_line_text(c, resolved_name(c as u32))
}

/// The line that takes the place of everything that was cut.
pub open spec fn notice_text() -> Seq<char> {
    "\nYour message has been truncated because it was too big. Try some of the special commands in /help"@
}

/// The lines of all of `chars`, in order, one after the other.
pub open spec fn lines_text(chars: Seq<char>) -> Seq<char>
    decreases chars.len(),
{
    if chars.len() == 0 {
        Seq::empty()
    } else {
        lines_text(chars.drop_last()) + line_text(chars.last())
    }
}

/// Whether the first `k` characters can all be rendered: there are that
/// many, the line cap admits them, and their lines stay below the byte
/// budget.
pub open spec fn fits(chars: Seq<char>, limits: Limits, k: nat) -> bool {
    &&& k <= chars.len()
    &&& k <= limits.max_entities
    &&& k > 0 ==> byte_len(lines_text(chars.take(k as int))) < limits.max_bytes
}

/// The number of rendered lines, given that the first `k` are rendered:
/// lines are added for as long as the next one fits.
pub open spec fn shown_from(chars: Seq<char>, limits: Limits, k: nat) -> nat
    decreases chars.len() - k,
{
    if k < chars.len() && fits(chars, limits, k + 1) {
        shown_from(chars, limits, k + 1)
    } else {
        k
    }
}

/// The number of characters that a breakdown renders.
pub open spec fn shown(chars: Seq<char>, limits: Limits) -> nat {
    shown_from(chars, limits, 0)
}

/// The text of a breakdown: the lines of the characters that are rendered,
/// and the notice after them if any character is left over.
pub open spec fn breakdown_text(chars: Seq<char>, limits: Limits) -> Seq<char> {
    let k = shown(chars, limits);
    if k < chars.len() {
        lines_text(chars.take(k as int)) + notice_text()
    } else {
        lines_text(chars)
    }
}

/// Whether some character of `chars` has no name of its own.
pub open spec fn any_unknown(chars: Seq<char>) -> bool {
    exists|j: int| 0 <= j < chars.len() && !is_known(#[trigger] chars[j] as u32)
}

/// The encoding of two texts joined is the two encodings joined, so byte
/// lengths add up.
pub proof fn lemma_byte_len_concat(a: Seq<char>, b: Seq<char>)
    ensures
        encode_utf8(a + b) == encode_utf8(a) + encode_utf8(b),
        byte_len(a + b) == byte_len(a) + byte_len(b),
    decreases a.len(),
{
    if a.len() == 0 {
        assert(a + b =~= b);
        assert(encode_utf8(a) + encode_utf8(b) =~= encode_utf8(b));
    } else {
        lemma_byte_len_concat(a.drop_first(), b);
        assert((a + b).drop_first() =~= a.drop_first() + b);
        assert(encode_utf8(a + b) =~= encode_utf8(a) + encode_utf8(b));
    }
}

/// Rendering one more character appends its line.
pub proof fn lemma_lines_step(chars: Seq<char>, k: int)
    requires
        0 <= k < chars.len(),
    ensures
        lines_text(chars.take(k + 1)) == lines_text(chars.take(k)) + line_text(chars[k]),
        byte_len(lines_text(chars.take(k + 1))) == byte_len(lines_text(chars.take(k))) + byte_len(
            line_text(chars[k]),
        ),
{
    assert(chars.take(k + 1).drop_last() =~= chars.take(k));
    lemma_byte_len_concat(lines_text(chars.take(k)), line_text(chars[k]));
}

/// The byte length of the rendered lines grows with their number.
pub proof fn lemma_lines_grow(chars: Seq<char>, j: int, k: int)
    requires
        0 <= j <= k <= chars.len(),
    ensures
        byte_len(lines_text(chars.take(j))) <= byte_len(lines_text(chars.take(k))),
    decreases k - j,
{
    if j < k {
        lemma_lines_step(chars, k - 1);
        lemma_lines_grow(chars, j, k - 1);
    }
}

/// If the first `k` characters fit, so does every shorter prefix.
pub proof fn lemma_fits_downward(chars: Seq<char>, limits: Limits, j: nat, k: nat)
    requires
        j <= k,
        fits(chars, limits, k),
    ensures
        fits(chars, limits, j),
{
    lemma_lines_grow(chars, j as int, k as int);
}

proof fn lemma_shown_from(chars: Seq<char>, limits: Limits, k: nat)
    requires
        fits(chars, limits, k),
    ensures
        k <= shown_from(chars, limits, k) <= chars.len(),
        fits(chars, limits, shown_from(chars, limits, k)),
        shown_from(chars, limits, k) < chars.len() ==> !fits(
            chars,
            limits,
            shown_from(chars, limits, k) + 1,
        ),
    decreases chars.len() - k,
{
    if k < chars.len() && fits(chars, limits, k + 1) {
        lemma_shown_from(chars, limits, k + 1);
    }
}

/// The number of rendered lines is the largest number of leading
/// characters that fit.
pub proof fn lemma_shown_is_largest(chars: Seq<char>, limits: Limits)
    ensures
        fits(chars, limits, shown(chars, limits)),
        forall|k: nat| fits(chars, limits, k) ==> k <= shown(chars, limits),
{
    lemma_shown_from(chars, limits, 0);
    let s = shown(chars, limits);
    assert forall|k: nat| fits(chars, limits, k) implies k <= s by {
        if k > s {
            lemma_fits_downward(chars, limits, s + 1, k);
        }
    }
}

/// Never more lines than the line cap allows, nor than there are
/// characters.
pub proof fn lemma_shown_within_caps(chars: Seq<char>, limits: Limits)
    ensures
        shown(chars, limits) <= limits.max_entities,
        shown(chars, limits) <= chars.len(),
        breakdown_text(chars, limits) == lines_text(chars.take(shown(chars, limits) as int)) + (if shown(
            chars,
            limits,
        ) < chars.len() {
            notice_text()
        } else {
            Seq::empty()
        }),
{
    lemma_shown_is_largest(chars, limits);
    let k = shown(chars, limits);
    if k == chars.len() {
        assert(chars.take(k as int) =~= chars);
        assert(lines_text(chars) + Seq::<char>::empty() =~= lines_text(chars));
    }
}

/// No characters, no text: neither a line nor the notice.
pub proof fn lemma_empty_breakdown(limits: Limits)
    ensures
        breakdown_text(Seq::<char>::empty(), limits) == Seq::<char>::empty(),
{
}

/// The rendered lines stay below the byte budget, so the whole text exceeds
/// the budget by less than the length of the notice.
pub proof fn lemma_breakdown_bounded(chars: Seq<char>, limits: Limits)
    ensures
        byte_len(breakdown_text(chars, limits)) <= limits.max_bytes + byte_len(notice_text()),
        shown(chars, limits) == chars.len() && chars.len() > 0 ==> byte_len(
            breakdown_text(chars, limits),
        ) < limits.max_bytes,
{
    lemma_shown_is_largest(chars, limits);
    let k = shown(chars, limits);
    let head = lines_text(chars.take(k as int));
    if k == 0 {
        assert(chars.take(0) =~= Seq::<char>::empty());
        assert(head =~= Seq::<char>::empty());
        assert(byte_len(head) == 0);
    } else {
        assert(byte_len(head) < limits.max_bytes);
    }
    if k < chars.len() {
        lemma_byte_len_concat(head, notice_text());
        assert(breakdown_text(chars, limits) == head + notice_text());
    } else {
        assert(chars.take(k as int) =~= chars);
        assert(breakdown_text(chars, limits) == head);
    }
}

/// The text of a breakdown depends on the characters and the bounds alone:
/// two renderings of the same input are the same text.
pub proof fn lemma_breakdown_repeatable(
    chars: Seq<char>,
    limits: Limits,
    first: Seq<char>,
    second: Seq<char>,
)
    requires
        first == breakdown_text(chars, limits),
        second == breakdown_text(chars, limits),
    ensures
        first == second,
{
}

impl Limits {
    /// The bounds that a chat message imposes.
    pub fn standard() -> (limits: Limits)
        ensures
            limits == default_limits(),
    {
        Limits { max_bytes: 4000, max_entities: 50 }
    }
}

/// Renders the line of a character of a given name.
pub fn render_named_line(c: char, name: &str) -> (line: String)
    ensures
        line@ == named_line_text(c, name@),
{
    let code: u32 = c as u32;
    let mut line = String::new();
    line.append("`U+");
    push_padded_numeral(&mut line, code as u64, 16, 4);
    line.append("` [");
    line.append(name);
    line.append("](https://fileformat.info/info/unicode/char/");
    push_numeral(&mut line, code as u64, 16);
    line.append(")\n");
    assert(line@ =~= named_line_text(c, name@));
    line
}

/// Renders the line of one character, and tells whether the character has a
/// name of its own.
pub fn render_line(c: char) -> (rendered: (String, bool))
    ensures
        rendered.0@ == line_text(c),
        rendered.1 == is_known(c as u32),
{
    let (name, known) = lookup_name(c as u32);
    (render_named_line(c, name), known)
}

/// Length in bytes of a text as it is encoded.
fn encoded_len(text: &str) -> (len: usize)
    ensures
        len == byte_len(text@),
{
    text.as_bytes().len()
}

/// Renders the breakdown of `chars` under `limits`.
///
/// Characters are taken in order. Before each line is added, the line cap
/// and the byte budget are checked; the first line that does not fit ends
/// the breakdown, and the notice stands in its place.
pub fn format_chars(chars: &[char], limits: &Limits) -> (result: Breakdown)
    ensures
        result.text@ == breakdown_text(chars@, *limits),
        result.truncated == (shown(chars@, *limits) < chars@.len()),
        result.unresolved == any_unknown(chars@.take(shown(chars@, *limits) as int)),
        chars@.len() == 0 ==> result.text@.len() == 0,
{
    let mut text = String::new();
    let mut unresolved = false;
    let mut i: usize = 0;
    assert(chars@.take(0) =~= Seq::<char>::empty());
    while i < chars.len()
        invariant
            i <= chars@.len(),
            fits(chars@, *limits, i as nat),
            text@ == lines_text(chars@.take(i as int)),
            shown(chars@, *limits) == shown_from(chars@, *limits, i as nat),
            unresolved == any_unknown(chars@.take(i as int)),
        decreases chars@.len() - i,
    {
        let (line, known) = render_line(chars[i]);
        let used = encoded_len(text.as_str());
        let size = encoded_len(line.as_str());
        proof {
            lemma_lines_step(chars@, i as int);
        }
        if i >= limits.max_entities || used >= limits.max_bytes || size >= limits.max_bytes - used {
            text.append(
                "\nYour message has been truncated because it was too big. Try some of the special commands in /help",
            );
            return Breakdown { text, truncated: true, unresolved };
        }
        text.append(line.as_str());
        proof {
            let before = chars@.take(i as int);
            let after = chars@.take(i + 1);
            assert(after =~= before.push(chars@[i as int]));
            if any_unknown(before) {
                let j = choose|j: int| 0 <= j < before.len() && !is_known(#[trigger] before[j] as u32);
                assert(after[j] == before[j]);
            }
            if !known {
                assert(after[i as int] == chars@[i as int]);
            }
        }
        if !known {
            unresolved = true;
        }
        i += 1;
    }
    assert(chars@.take(i as int) =~= chars@);
    Breakdown { text, truncated: false, unresolved }
}

/// Renders the breakdown of `chars` under the bounds of a chat message.
pub fn get_char_names(chars: &[char]) -> (text: String)
    ensures
        text@ == breakdown_text(chars@, default_limits()),
{
    let limits = Limits::standard();
    format_chars(chars, &limits).text
}

} // verus!
