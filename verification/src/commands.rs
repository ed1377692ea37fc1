//! What a private message asks for: the command word, its arguments, and
//! the reply that follows from them.

use crate::breakdown::{breakdown_text, default_limits, get_char_names};
use crate::tally::StatisticAction;
use vstd::prelude::*;
use vstd::slice::slice_subrange;
use vstd::string::StrSliceExecFns;

verus! {

/// `char::from_u32` yields the character with the given code, and yields
/// none where there is no such character: for a surrogate and for anything
/// above `0x10FFFF`.
pub assume_specification[ char::from_u32 ](code: u32) -> (made: Option<char>)
    ensures
        made is Some <==> is_scalar_value(code as nat),
        made matches Some(c) ==> c as u32 == code,
;

/// A reply whose wording does not depend on the message.
#[derive(Clone, Copy, Debug, PartialEq, Eq, Structural)]
pub enum Notice {
    /// What the bot is.
    About,
    /// The list of commands.
    Help,
    /// The command needs a message to reply to.
    NeedReply,
    /// The filter left no character.
    FilterExhaustive,
    /// The filter was given no characters to leave out.
    NoFilter,
    /// The argument names no code point.
    InvalidCodepoint,
    /// The command was given no code point.
    NoCodepoint,
}

/// What is sent back.
#[derive(Debug, PartialEq, Eq)]
pub enum Reply {
    /// One of the fixed texts.
    Fixed(Notice),
    /// A text made for this message.
    Text(String),
}

/// A reply as contracts see it.
pub enum ReplyModel {
    Fixed(Notice),
    Text(Seq<char>),
}

impl View for Reply {
    type V = ReplyModel;

    open spec fn view(&self) -> ReplyModel {
        match self {
            Reply::Fixed(notice) => ReplyModel::Fixed(*notice),
            Reply::Text(text) => ReplyModel::Text(text@),
        }
    }
}

/// The answer to a message: what to send, and what to count it as.
#[derive(Debug, PartialEq, Eq)]
pub struct Response {
    pub reply: Reply,
    pub action: StatisticAction,
}

/// At most this many distinct characters are kept for a breakdown of
/// distinct characters: one more than a breakdown renders, so that the
/// breakdown shows that it was cut.
pub const DISTINCT_CAP: usize = 51;

/// Whether `c` is ASCII whitespace: space, tab, line feed, form feed or
/// carriage return.
pub open spec fn is_space(c: char) -> bool {
    c == ' ' || c == '\t' || c == '\n' || c == '\x0C' || c == '\r'
}

/// Index of the first ASCII whitespace at or after `from`, or the length
/// of the text if there is none.
pub open spec fn first_space_from(text: Seq<char>, from: int) -> int
    decreases text.len() - from,
{
    if from < 0 || from >= text.len() {
        text.len() as int
    } else if is_space(text[from]) {
        from
    } else {
        first_space_from(text, from + 1)
    }
}

/// The command word: the text up to its first ASCII whitespace.
pub open spec fn command_of(text: Seq<char>) -> Seq<char> {
    text.take(first_space_from(text, 0))
}

/// The arguments: the text after its first ASCII whitespace, if it has
/// one.
pub open spec fn arguments_of(text: Seq<char>) -> Option<Seq<char>> {
    if first_space_from(text, 0) < text.len() {
        Some(text.skip(first_space_from(text, 0) + 1))
    } else {
        None
    }
}

/// `chars` without the characters that occur in `excluded`.
pub open spec fn kept(chars: Seq<char>, excluded: Seq<char>) -> Seq<char> {
    chars.filter(|c: char| !excluded.contains(c))
}

/// The distinct characters of `chars` in the order of their first
/// occurrence.
pub open spec fn distinct(chars: Seq<char>) -> Seq<char>
    decreases chars.len(),
{
    if chars.len() == 0 {
        Seq::empty()
    } else {
        let front = distinct(chars.drop_last());
        if front.contains(chars.last()) {
            front
        } else {
            front.push(chars.last())
        }
    }
}

/// The first distinct characters of `chars`, as many as the cap allows.
pub open spec fn distinct_capped(chars: Seq<char>) -> Seq<char> {
    if distinct(chars).len() <= DISTINCT_CAP {
        distinct(chars)
    } else {
        distinct(chars).take(DISTINCT_CAP as int)
    }
}

/// The value of a hexadecimal digit of either case.
pub open spec fn hex_value(c: char) -> Option<nat> {
    let code = c as u32;
    if 48 <= code <= 57 {
        Some((code - 48) as nat)
    } else if 97 <= code <= 102 {
        Some((code - 87) as nat)
    } else if 65 <= code <= 70 {
        Some((code - 55) as nat)
    } else {
        None
    }
}

/// The number that a run of hexadecimal digits writes, if it is not empty
/// and holds nothing else.
pub open spec fn hex_number(digits: Seq<char>) -> Option<nat>
    decreases digits.len(),
{
    if digits.len() == 0 {
        None
    } else if digits.len() == 1 {
        hex_value(digits[0])
    } else {
        match (hex_number(digits.drop_last()), hex_value(digits.last())) {
            (Some(high), Some(low)) => Some(16 * high + low),
            _ => None,
        }
    }
}

/// Whether a number is the code of a character: at most `0x10FFFF` and no
/// surrogate.
pub open spec fn is_scalar_value(code: nat) -> bool {
    code <= 0x10FFFF && !(0xD800 <= code <= 0xDFFF)
}

/// Where the digits of a code point begin: after one leading `u` of either
/// case and one plus sign, in that order, each only if it is there.
pub open spec fn digits_start(text: Seq<char>) -> int {
    let after_letter: int = if text.len() > 0 && (text[0] == 'u' || text[0] == 'U') {
        1
    } else {
        0
    };
    if text.len() > after_letter && text[after_letter] == '+' {
        after_letter + 1
    } else {
        after_letter
    }
}

/// The character that a code point argument names, such as `U+1F954`,
/// `u41` or `20ac`.
pub open spec fn named_char(text: Seq<char>) -> Option<char> {
    match hex_number(text.skip(digits_start(text))) {
        Some(code) => if is_scalar_value(code) {
            Some(code as u32 as char)
        } else {
            None
        },
        None => None,
    }
}

/// The reply to a message and the action it counts as. `reply_to` is the
/// text of the message that this one answers, if it answers one.
pub open spec fn decide(text: Seq<char>, reply_to: Option<Seq<char>>) -> (ReplyModel, StatisticAction) {
    let command = command_of(text);
    let need_reply = (ReplyModel::Fixed(Notice::NeedReply), StatisticAction::BadCmd);
    if command == "/start"@ || command == "/about"@ {
        (ReplyModel::Fixed(Notice::About), StatisticAction::StartAbout)
    } else if command == "/help"@ {
        (ReplyModel::Fixed(Notice::Help), StatisticAction::Help)
    } else if command == "/raw"@ {
        match reply_to {
            Some(replied) => (
                ReplyModel::Text(breakdown_text(replied, default_limits())),
                StatisticAction::Raw,
            ),
            None => need_reply,
        }
    } else if command == "/filter"@ {
        match (reply_to, arguments_of(text)) {
            (Some(replied), Some(excluded)) => {
                let shown = breakdown_text(kept(replied, excluded), default_limits());
                if shown.len() > 0 {
                    (ReplyModel::Text(shown), StatisticAction::Filter)
                } else {
                    (ReplyModel::Fixed(Notice::FilterExhaustive), StatisticAction::BadCmd)
                }
            },
            (Some(replied), None) => (ReplyModel::Fixed(Notice::NoFilter), StatisticAction::BadCmd),
            (None, _) => need_reply,
        }
    } else if command == "/codepoint"@ {
        match arguments_of(text) {
            Some(argument) => match named_char(argument) {
                Some(c) => (ReplyModel::Text(seq![c]), StatisticAction::Codepoint),
                None => (ReplyModel::Fixed(Notice::InvalidCodepoint), StatisticAction::BadCmd),
            },
            None => (ReplyModel::Fixed(Notice::NoCodepoint), StatisticAction::BadCmd),
        }
    } else if command == "/unique"@ {
        match reply_to {
            Some(replied) => (
                ReplyModel::Text(breakdown_text(distinct_capped(replied), default_limits())),
                StatisticAction::Unique,
            ),
            None => need_reply,
        }
    } else {
        (ReplyModel::Text(breakdown_text(text, default_limits())), StatisticAction::Breakdown)
    }
}

/// The first whitespace found from `from` on is the first whitespace of
/// the text if there is none before `from`.
proof fn lemma_first_space_skip(text: Seq<char>, from: int)
    requires
        0 <= from <= text.len(),
        forall|j: int| 0 <= j < from ==> !is_space(#[trigger] text[j]),
    ensures
        first_space_from(text, 0) == first_space_from(text, from),
    decreases from,
{
    if from > 0 {
        lemma_first_space_skip(text, from - 1);
    }
}

/// The command word holds no whitespace, and where the text holds
/// whitespace the word ends at the first of it.
pub proof fn lemma_first_space(text: Seq<char>)
    ensures
        0 <= first_space_from(text, 0) <= text.len(),
        forall|j: int| 0 <= j < first_space_from(text, 0) ==> !is_space(#[trigger] text[j]),
        first_space_from(text, 0) < text.len() ==> is_space(text[first_space_from(text, 0)]),
{
    lemma_first_space_from(text, 0);
}

proof fn lemma_first_space_from(text: Seq<char>, from: int)
    requires
        0 <= from <= text.len(),
    ensures
        from <= first_space_from(text, from) <= text.len(),
        forall|j: int| from <= j < first_space_from(text, from) ==> !is_space(#[trigger] text[j]),
        first_space_from(text, from) < text.len() ==> is_space(text[first_space_from(text, from)]),
    decreases text.len() - from,
{
    if from < text.len() && !is_space(text[from]) {
        lemma_first_space_from(text, from + 1);
    }
}

/// Nothing is kept of no characters.
pub proof fn lemma_kept_empty(excluded: Seq<char>)
    ensures
        kept(Seq::<char>::empty(), excluded) == Seq::<char>::empty(),
{
    reveal(Seq::filter);
}

/// Keeping goes character by character.
pub proof fn lemma_kept_step(chars: Seq<char>, excluded: Seq<char>, k: int)
    requires
        0 <= k < chars.len(),
    ensures
        kept(chars.take(k + 1), excluded) == if excluded.contains(chars[k]) {
            kept(chars.take(k), excluded)
        } else {
            kept(chars.take(k), excluded).push(chars[k])
        },
{
    reveal(Seq::filter);
    assert(chars.take(k + 1).drop_last() =~= chars.take(k));
}

/// What is kept holds no excluded character, and every character of the
/// text that is not excluded is kept.
pub proof fn lemma_kept_members(chars: Seq<char>, excluded: Seq<char>, c: char)
    ensures
        kept(chars, excluded).contains(c) <==> chars.contains(c) && !excluded.contains(c),
    decreases chars.len(),
{
    reveal(Seq::filter);
    if chars.len() > 0 {
        let front = chars.drop_last();
        lemma_kept_members(front, excluded, c);
        let short = kept(front, excluded);
        let long = kept(chars, excluded);
        if long.contains(c) {
            let i = choose|i: int| 0 <= i < long.len() && long[i] == c;
            if i < short.len() {
                assert(short[i] == c);
                assert(short.contains(c));
                assert(front.contains(c));
                let j = choose|j: int| 0 <= j < front.len() && front[j] == c;
                assert(chars[j] == c);
            } else {
                assert(chars[chars.len() - 1] == c);
            }
        }
        if chars.contains(c) && !excluded.contains(c) {
            let j = choose|j: int| 0 <= j < chars.len() && chars[j] == c;
            if j < front.len() {
                assert(front[j] == c);
                assert(front.contains(c));
                assert(short.contains(c));
                let i = choose|i: int| 0 <= i < short.len() && short[i] == c;
                assert(long[i] == c);
            } else {
                assert(long[short.len() as int] == c);
            }
        }
    }
}

/// The distinct characters of a prefix are a prefix of the distinct
/// characters of the whole.
pub proof fn lemma_distinct_prefix(chars: Seq<char>, k: int)
    requires
        0 <= k <= chars.len(),
    ensures
        distinct(chars.take(k)).len() <= distinct(chars).len(),
        distinct(chars.take(k)) == distinct(chars).take(distinct(chars.take(k)).len() as int),
    decreases chars.len() - k,
{
    if k == chars.len() {
        assert(chars.take(k) =~= chars);
        assert(distinct(chars).take(distinct(chars).len() as int) =~= distinct(chars));
    } else {
        lemma_distinct_prefix(chars, k + 1);
        assert(chars.take(k + 1).drop_last() =~= chars.take(k));
        let shorter = distinct(chars.take(k));
        let longer = distinct(chars.take(k + 1));
        assert(shorter =~= longer.take(shorter.len() as int));
        assert(shorter =~= distinct(chars).take(shorter.len() as int));
    }
}

/// The distinct characters are the characters of the text.
pub proof fn lemma_distinct_members(chars: Seq<char>, c: char)
    ensures
        distinct(chars).contains(c) <==> chars.contains(c),
    decreases chars.len(),
{
    if chars.len() > 0 {
        let front = chars.drop_last();
        lemma_distinct_members(front, c);
        let short = distinct(front);
        let long = distinct(chars);
        if long.contains(c) {
            let i = choose|i: int| 0 <= i < long.len() && long[i] == c;
            if i < short.len() {
                assert(short[i] == c);
                assert(short.contains(c));
                assert(front.contains(c));
                let j = choose|j: int| 0 <= j < front.len() && front[j] == c;
                assert(chars[j] == c);
            } else {
                assert(chars[chars.len() - 1] == c);
            }
        }
        if chars.contains(c) {
            let j = choose|j: int| 0 <= j < chars.len() && chars[j] == c;
            if j < front.len() {
                assert(front[j] == c);
                assert(front.contains(c));
            }
            if short.contains(c) {
                let i = choose|i: int| 0 <= i < short.len() && short[i] == c;
                assert(long[i] == c);
            } else {
                assert(long[short.len() as int] == c);
            }
        }
    }
}

/// No character occurs twice among the distinct characters, and there are
/// no more of them than characters in the text.
pub proof fn lemma_distinct_no_duplicates(chars: Seq<char>)
    ensures
        distinct(chars).no_duplicates(),
        distinct(chars).len() <= chars.len(),
    decreases chars.len(),
{
    if chars.len() > 0 {
        lemma_distinct_no_duplicates(chars.drop_last());
    }
}

/// More digits never write a smaller number: the number of a run of
/// digits is at least the number of each of its prefixes.
pub proof fn lemma_hex_number_grows(digits: Seq<char>, k: int)
    requires
        1 <= k <= digits.len(),
        hex_number(digits) is Some,
    ensures
        hex_number(digits.take(k)) is Some,
        hex_number(digits.take(k)).unwrap() <= hex_number(digits).unwrap(),
    decreases digits.len() - k,
{
    if k == digits.len() {
        assert(digits.take(k) =~= digits);
    } else {
        assert(digits.drop_last().take(k) =~= digits.take(k));
        lemma_hex_number_grows(digits.drop_last(), k);
    }
}

/// Tells ASCII whitespace from other characters.
pub fn is_ascii_space(c: char) -> (space: bool)
    ensures
        space == is_space(c),
{
    c == ' ' || c == '\t' || c == '\n' || c == '\x0C' || c == '\r'
}

/// Splits a message into its command word and its arguments.
pub fn split_command(text: &[char]) -> (parts: (&[char], Option<&[char]>))
    ensures
        parts.0@ == command_of(text@),
        match parts.1 {
            Some(arguments) => arguments_of(text@) == Some(arguments@),
            None => arguments_of(text@) is None,
        },
{
    let mut i: usize = 0;
    while i < text.len() && !is_ascii_space(text[i])
        invariant
            i <= text@.len(),
            forall|j: int| 0 <= j < i ==> !is_space(#[trigger] text@[j]),
        decreases text@.len() - i,
    {
        i += 1;
    }
    proof {
        lemma_first_space_skip(text@, i as int);
    }
    if i < text.len() {
        (slice_subrange(text, 0, i), Some(slice_subrange(text, i + 1, text.len())))
    } else {
        (slice_subrange(text, 0, i), None)
    }
}

/// Tells whether `word` is exactly the characters of `expected`.
pub fn is_word(word: &[char], expected: &str) -> (same: bool)
    ensures
        same == (word@ == expected@),
{
    let len = expected.unicode_len();
    if word.len() != len {
        return false;
    }
    let mut i: usize = 0;
    while i < len
        invariant
            i <= len,
            len == word@.len(),
            len == expected@.len(),
            forall|j: int| 0 <= j < i ==> word@[j] == expected@[j],
        decreases len - i,
    {
        if word[i] != expected.get_char(i) {
            return false;
        }
        i += 1;
    }
    assert(word@ =~= expected@);
    true
}

/// Tells whether `c` occurs in `chars`.
pub fn contains_char(chars: &[char], c: char) -> (found: bool)
    ensures
        found == chars@.contains(c),
{
    let mut i: usize = 0;
    while i < chars.len()
        invariant
            i <= chars@.len(),
            forall|j: int| 0 <= j < i ==> chars@[j] != c,
        decreases chars@.len() - i,
    {
        if chars[i] == c {
            return true;
        }
        i += 1;
    }
    false
}

/// Leaves out of `chars` every character that occurs in `excluded`, and
/// keeps the rest in order.
pub fn filter_chars(chars: &[char], excluded: &[char]) -> (rest: Vec<char>)
    ensures
        rest@ == kept(chars@, excluded@),
{
    let mut rest: Vec<char> = Vec::new();
    let mut i: usize = 0;
    proof {
        lemma_kept_empty(excluded@);
        assert(chars@.take(0) =~= Seq::<char>::empty());
    }
    while i < chars.len()
        invariant
            i <= chars@.len(),
            rest@ == kept(chars@.take(i as int), excluded@),
        decreases chars@.len() - i,
    {
        proof {
            lemma_kept_step(chars@, excluded@, i as int);
        }
        if !contains_char(excluded, chars[i]) {
            rest.push(chars[i]);
        }
        i += 1;
    }
    assert(chars@.take(i as int) =~= chars@);
    rest
}

/// Collects the distinct characters of `chars` in the order of their
/// first occurrence, and stops when it holds as many as the cap allows.
pub fn unique_chars(chars: &[char]) -> (unique: Vec<char>)
    ensures
        unique@ == distinct_capped(chars@),
{
    let mut unique: Vec<char> = Vec::new();
    let mut i: usize = 0;
    assert(chars@.take(0) =~= Seq::<char>::empty());
    while i < chars.len()
        invariant
            i <= chars@.len(),
            unique@ == distinct(chars@.take(i as int)),
            unique@.len() < DISTINCT_CAP,
        decreases chars@.len() - i,
    {
        assert(chars@.take(i + 1).drop_last() =~= chars@.take(i as int));
        if !contains_char(unique.as_slice(), chars[i]) {
            unique.push(chars[i]);
            if unique.len() >= DISTINCT_CAP {
                proof {
                    lemma_distinct_prefix(chars@, i + 1);
                }
                return unique;
            }
        }
        i += 1;
    }
    assert(chars@.take(i as int) =~= chars@);
    unique
}

/// The value of a hexadecimal digit of either case.
fn hex_digit(c: char) -> (value: Option<u32>)
    ensures
        match value {
            Some(v) => hex_value(c) == Some(v as nat) && v < 16,
            None => hex_value(c) is None,
        },
{
    let code: u32 = c as u32;
    if 48 <= code && code <= 57 {
        Some(code - 48)
    } else if 97 <= code && code <= 102 {
        Some(code - 87)
    } else if 65 <= code && code <= 70 {
        Some(code - 55)
    } else {
        None
    }
}

/// Reads the character that a code point argument names.
///
/// The argument is a hexadecimal number of either case, optionally after a
/// `u` of either case, a plus sign, or both in that order. There is no
/// character if anything else stands in it, if it has no digit, or if the
/// number is the code of no character.
pub fn parse_codepoint(text: &[char]) -> (named: Option<char>)
    ensures
        named == named_char(text@),
{
    let mut start: usize = 0;
    if text.len() > 0 && (text[0] == 'u' || text[0] == 'U') {
        start = 1;
    }
    if text.len() > start && text[start] == '+' {
        start = start + 1;
    }
    let digits = slice_subrange(text, start, text.len());
    assert(digits@ =~= text@.skip(digits_start(text@)));
    if digits.len() == 0 {
        return None;
    }
    let mut code: u32 = 0;
    let mut i: usize = 0;
    while i < digits.len()
        invariant
            i <= digits@.len(),
            digits@.len() > 0,
            digits@ == text@.skip(digits_start(text@)),
            code <= 0x10FFFF,
            i == 0 ==> code == 0,
            i > 0 ==> hex_number(digits@.take(i as int)) == Some(code as nat),
        decreases digits@.len() - i,
    {
        let ghost read = digits@.take(i + 1);
        proof {
            assert(read.len() == i + 1);
            assert(read.last() == digits@[i as int]);
            assert(read[0] == digits@[0]);
            assert(read.drop_last() =~= digits@.take(i as int));
            if hex_number(digits@) is Some {
                lemma_hex_number_grows(digits@, i + 1);
            }
        }
        let digit = match hex_digit(digits[i]) {
            Some(digit) => digit,
            None => {
                assert(hex_number(read) is None);
                return None;
            },
        };
        code = code * 16 + digit;
        assert(hex_number(read) == Some(code as nat));
        if code > 0x10FFFF {
            return None;
        }
        i += 1;
    }
    assert(digits@.take(i as int) =~= digits@);
    let named = char::from_u32(code);
    proof {
        if let Some(c) = named {
            vstd::utf8::char_u32_cast(c, code);
        }
    }
    named
}

/// Decides the answer to an inline query: the breakdown of its text, and
/// none for a query without text.
pub fn answer_inline(query: &[char]) -> (answer: Option<String>)
    ensures
        answer is Some <==> query@.len() > 0,
        answer matches Some(text) ==> text@ == breakdown_text(query@, default_limits()),
{
    if query.len() == 0 {
        None
    } else {
        Some(get_char_names(query))
    }
}

/// Decides the reply to a private message and the action it counts as.
/// `reply_to` is the text of the message that this one answers, if it
/// answers one.
pub fn respond(text: &[char], reply_to: Option<&[char]>) -> (response: Response)
    ensures
        (response.reply@, response.action) == decide(
            text@,
            match reply_to {
                Some(replied) => Some(replied@),
                None => None,
            },
        ),
{
    let (command, arguments) = split_command(text);
    let need_reply = Response { reply: Reply::Fixed(Notice::NeedReply), action: StatisticAction::BadCmd };
    if is_word(command, "/start") || is_word(command, "/about") {
        Response { reply: Reply::Fixed(Notice::About), action: StatisticAction::StartAbout }
    } else if is_word(command, "/help") {
        Response { reply: Reply::Fixed(Notice::Help), action: StatisticAction::Help }
    } else if is_word(command, "/raw") {
        match reply_to {
            Some(replied) => Response {
                reply: Reply::Text(get_char_names(replied)),
                action: StatisticAction::Raw,
            },
            None => need_reply,
        }
    } else if is_word(command, "/filter") {
        match reply_to {
            Some(replied) => match arguments {
                Some(excluded) => {
                    let rest = filter_chars(replied, excluded);
                    let shown = get_char_names(rest.as_slice());
                    if !shown.as_str().is_empty() {
                        Response { reply: Reply::Text(shown), action: StatisticAction::Filter }
                    } else {
                        Response {
                            reply: Reply::Fixed(Notice::FilterExhaustive),
                            action: StatisticAction::BadCmd,
                        }
                    }
                },
                None => Response { reply: Reply::Fixed(Notice::NoFilter), action: StatisticAction::BadCmd },
            },
            None => need_reply,
        }
    } else if is_word(command, "/codepoint") {
        match arguments {
            Some(argument) => match parse_codepoint(argument) {
                Some(c) => {
                    let mut text = String::new();
                    text.push(c);
                    assert(text@ =~= seq![c]);
                    Response { reply: Reply::Text(text), action: StatisticAction::Codepoint }
                },
                None => Response {
                    reply: Reply::Fixed(Notice::InvalidCodepoint),
                    action: StatisticAction::BadCmd,
                },
            },
            None => Response { reply: Reply::Fixed(Notice::NoCodepoint), action: StatisticAction::BadCmd },
        }
    } else if is_word(command, "/unique") {
        match reply_to {
            Some(replied) => {
                let unique = unique_chars(replied);
                Response {
                    reply: Reply::Text(get_char_names(unique.as_slice())),
                    action: StatisticAction::Unique,
                }
            },
            None => need_reply,
        }
    } else {
        Response { reply: Reply::Text(get_char_names(text)), action: StatisticAction::Breakdown }
    }
}

} // verus!
