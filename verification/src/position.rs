//! Places in a text, counted two ways: by the offset of a byte of the
//! text's UTF-8 form, and by line and column, where a column counts the
//! code units of the line's UTF-16 form.

use crate::text::chars_of;
use vstd::prelude::*;

verus! {

/// A place by line and column, both counted from zero.
#[derive(Clone, Copy, Debug, PartialEq, Eq, Structural)]
pub struct Position {
    pub line: usize,
    pub character: usize,
}

/// The number of bytes that `c` takes in UTF-8.
pub open spec fn utf8_len(c: char) -> nat {
    let v = c as u32;
    if v < 0x80 {
        1
    } else if v < 0x800 {
        2
    } else if v < 0x10000 {
        3
    } else {
        4
    }
}

/// The number of code units that `c` takes in UTF-16.
pub open spec fn utf16_len(c: char) -> nat {
    if (c as u32) < 0x10000 {
        1
    } else {
        2
    }
}

/// The number of bytes that `c` takes in UTF-8.
pub fn len_utf8(c: char) -> (n: usize)
    ensures
        n == utf8_len(c),
{
    let v = c as u32;
    if v < 0x80 {
        1
    } else if v < 0x800 {
        2
    } else if v < 0x10000 {
        3
    } else {
        4
    }
}

/// The number of code units that `c` takes in UTF-16.
pub fn len_utf16(c: char) -> (n: usize)
    ensures
        n == utf16_len(c),
{
    if (c as u32) < 0x10000 {
        1
    } else {
        2
    }
}

/// The number of bytes that `s` takes in UTF-8.
pub open spec fn bytes_in(s: Seq<char>) -> nat
    decreases s.len(),
{
    if s.len() == 0 {
        0
    } else {
        bytes_in(s.drop_last()) + utf8_len(s.last())
    }
}

/// The place just behind the text `s`: the line is the number of line
/// feeds in `s`, the column the UTF-16 length of what follows the last
/// of them.
pub open spec fn end_of(s: Seq<char>) -> Position
    decreases s.len(),
{
    if s.len() == 0 {
        Position { line: 0, character: 0 }
    } else {
        let before = end_of(s.drop_last());
        if s.last() == '\n' {
            Position { line: (before.line + 1) as usize, character: 0 }
        } else {
            Position {
                line: before.line,
                character: (before.character + utf16_len(s.last())) as usize,
            }
        }
    }
}

/// How many characters of `s` end at or before the byte offset `offset`,
/// counting on from the `k`-th, before which `used` bytes lie.
pub open spec fn chars_within(s: Seq<char>, k: int, used: nat, offset: nat) -> int
    decreases s.len() - k,
{
    if 0 <= k < s.len() && used + utf8_len(s[k]) <= offset {
        chars_within(s, k + 1, used + utf8_len(s[k]), offset)
    } else {
        k
    }
}

/// The line and column of the byte offset `offset` in `s`. An offset
/// inside a character counts as that of the character's first byte, one
/// behind the text as the end of the text.
pub open spec fn position_of(s: Seq<char>, offset: usize) -> Position {
    end_of(s.take(chars_within(s, 0, 0, offset as nat)))
}

/// The index of the character at the place `lines` lines and `units`
/// columns on from the `k`-th character of `s`, which begins a line or
/// stands in the line sought. A column behind the end of its line, or
/// inside a character, counts as the last place in the line before it.
/// There is no such place where the text has too few lines.
pub open spec fn seek(s: Seq<char>, k: int, lines: nat, units: nat) -> Option<int>
    decreases s.len() - k,
{
    if k < 0 {
        None
    } else if lines > 0 {
        if k >= s.len() {
            None
        } else if s[k] == '\n' {
            seek(s, k + 1, (lines - 1) as nat, units)
        } else {
            seek(s, k + 1, lines, units)
        }
    } else if k >= s.len() || s[k] == '\n' || utf16_len(s[k]) > units {
        Some(k)
    } else {
        seek(s, k + 1, 0, (units - utf16_len(s[k])) as nat)
    }
}

/// The byte offset of the place `position` in `s`.
pub open spec fn offset_of(s: Seq<char>, position: Position) -> Option<nat> {
    match seek(s, 0, position.line as nat, position.character as nat) {
        Some(k) => Some(bytes_in(s.take(k))),
        None => None,
    }
}

/// The place of the `k`-th character counted from the `j`-th: the line
/// feeds between the two, and the UTF-16 length of what stands between
/// the last of them, or the `j`-th character where there is none, and
/// the `k`-th.
pub open spec fn between(s: Seq<char>, j: int, k: int) -> (nat, nat)
    decreases k - j,
{
    if k <= j || k > s.len() || j < 0 {
        (0, 0)
    } else {
        let before = between(s, j, k - 1);
        if s[k - 1] == '\n' {
            (before.0 + 1, 0)
        } else {
            (before.0, before.1 + utf16_len(s[k - 1]))
        }
    }
}

/// A longer part of a text takes no fewer bytes.
proof fn lemma_bytes_grow(s: Seq<char>, i: int, j: int)
    requires
        0 <= i <= j <= s.len(),
    ensures
        bytes_in(s.take(i)) <= bytes_in(s.take(j)),
    decreases j - i,
{
    if i < j {
        lemma_bytes_grow(s, i, j - 1);
        assert(s.take(j).drop_last() =~= s.take(j - 1));
    }
}

/// The place behind a part of a text, counted from the start: lines and
/// columns together are no more than the bytes of the part.
proof fn lemma_end_of_take(s: Seq<char>, k: int)
    requires
        0 <= k <= s.len(),
        bytes_in(s.take(k)) <= usize::MAX,
    ensures
        end_of(s.take(k)).line == between(s, 0, k).0,
        end_of(s.take(k)).character == between(s, 0, k).1,
        between(s, 0, k).0 + between(s, 0, k).1 <= bytes_in(s.take(k)),
    decreases k,
{
    if k > 0 {
        assert(s.take(k).drop_last() =~= s.take(k - 1));
        lemma_end_of_take(s, k - 1);
    }
}

/// How the count from the `j`-th character relates to the count from
/// the next one.
proof fn lemma_between_front(s: Seq<char>, j: int, k: int)
    requires
        0 <= j < k <= s.len(),
    ensures
        s[j] == '\n' ==> between(s, j, k) == (between(s, j + 1, k).0 + 1, between(s, j + 1, k).1),
        s[j] != '\n' && between(s, j + 1, k).0 > 0 ==> between(s, j, k) == between(s, j + 1, k),
        s[j] != '\n' && between(s, j + 1, k).0 == 0 ==> between(s, j, k) == (
            0nat,
            between(s, j + 1, k).1 + utf16_len(s[j]),
        ),
    decreases k - j,
{
    if j + 1 < k {
        lemma_between_front(s, j, k - 1);
    } else {
        assert(between(s, j, j) == (0nat, 0nat));
        assert(between(s, j + 1, k) == (0nat, 0nat));
    }
}

/// Seeking the place of the `k`-th character, counted from the `j`-th,
/// from the `j`-th on comes to the `k`-th.
proof fn lemma_seek_between(s: Seq<char>, j: int, k: int)
    requires
        0 <= j <= k <= s.len(),
    ensures
        seek(s, j, between(s, j, k).0, between(s, j, k).1) == Some(k),
    decreases k - j,
{
    if j < k {
        lemma_between_front(s, j, k);
        lemma_seek_between(s, j + 1, k);
    }
}

/// Lines and columns are the inverse of byte offsets: the place of the
/// offset at which a character begins, or the text ends, leads back to
/// that offset.
pub proof fn lemma_positions_invert(s: Seq<char>, k: int)
    requires
        0 <= k <= s.len(),
        bytes_in(s.take(k)) <= usize::MAX,
    ensures
        position_of(s, bytes_in(s.take(k)) as usize) == end_of(s.take(k)),
        offset_of(s, end_of(s.take(k))) == Some(bytes_in(s.take(k))),
{
    lemma_chars_within(s, 0, k);
    assert(s.take(0) =~= Seq::<char>::empty());
    lemma_end_of_take(s, k);
    lemma_seek_between(s, 0, k);
}

/// Counting the characters that end at or before the offset at which the
/// `k`-th begins comes to `k`.
proof fn lemma_chars_within(s: Seq<char>, j: int, k: int)
    requires
        0 <= j <= k <= s.len(),
    ensures
        chars_within(s, j, bytes_in(s.take(j)), bytes_in(s.take(k))) == k,
    decreases k - j,
{
    if j < k {
        assert(s.take(j + 1).drop_last() =~= s.take(j));
        lemma_bytes_grow(s, j + 1, k);
        lemma_chars_within(s, j + 1, k);
    }
}

/// The line and column of a byte offset in `code`.
pub fn offset_to_pos(code: &str, offset: usize) -> (position: Position)
    ensures
        position == position_of(code@, offset),
{
    let chars = chars_of(code);
    let mut at: usize = 0;
    let mut used: usize = 0;
    let mut line: usize = 0;
    let mut character: usize = 0;
    proof {
        assert(chars@.take(0) =~= Seq::<char>::empty());
    }
    while at < chars.len()
        invariant
            at <= chars.len(),
            chars@ == code@,
            used == bytes_in(chars@.take(at as int)),
            used <= offset,
            line + character <= used,
            end_of(chars@.take(at as int)) == (Position { line, character }),
            chars_within(chars@, at as int, used as nat, offset as nat) == chars_within(
                chars@,
                0,
                0,
                offset as nat,
            ),
        decreases chars.len() - at,
    {
        let c = chars[at];
        let width = len_utf8(c);
        if width > offset - used {
            return Position { line, character };
        }
        proof {
            assert(chars@.take(at as int + 1).drop_last() =~= chars@.take(at as int));
            assert(chars@.take(at as int + 1).last() == c);
        }
        used = used + width;
        if c == '\n' {
            line = line + 1;
            character = 0;
        } else {
            character = character + len_utf16(c);
        }
        at = at + 1;
    }
    Position { line, character }
}

/// The index of the character at a line and column.
pub fn char_index(chars: &Vec<char>, position: Position) -> (index: Option<usize>)
    ensures
        match index {
            Some(k) => seek(chars@, 0, position.line as nat, position.character as nat) == Some(
                k as int,
            ) && k <= chars.len(),
            None => seek(chars@, 0, position.line as nat, position.character as nat) is None,
        },
{
    let mut at: usize = 0;
    let mut lines = position.line;
    let mut units = position.character;
    while at < chars.len()
        invariant
            at <= chars.len(),
            seek(chars@, at as int, lines as nat, units as nat) == seek(
                chars@,
                0,
                position.line as nat,
                position.character as nat,
            ),
        decreases chars.len() - at,
    {
        let c = chars[at];
        if lines > 0 {
            if c == '\n' {
                lines = lines - 1;
            }
        } else if c == '\n' || len_utf16(c) > units {
            return Some(at);
        } else {
            units = units - len_utf16(c);
        }
        at = at + 1;
    }
    if lines > 0 {
        None
    } else {
        Some(at)
    }
}

/// The byte offset of a line and column in `code`; `None` where the text
/// has too few lines.
pub fn lookup_pos(code: &str, position: Position) -> (offset: Option<usize>)
    ensures
        offset == match offset_of(code@, position) {
            Some(o) => if o <= usize::MAX {
                Some(o as usize)
            } else {
                None
            },
            None => None,
        },
{
    let chars = chars_of(code);
    let index = match char_index(&chars, position) {
        Some(index) => index,
        None => {
            return None;
        },
    };
    let mut at: usize = 0;
    let mut used: usize = 0;
    proof {
        assert(chars@.take(0) =~= Seq::<char>::empty());
    }
    while at < index
        invariant
            at <= index <= chars.len(),
            chars@ == code@,
            seek(chars@, 0, position.line as nat, position.character as nat) == Some(index as int),
            used == bytes_in(chars@.take(at as int)),
        decreases index - at,
    {
        proof {
            assert(chars@.take(at as int + 1).drop_last() =~= chars@.take(at as int));
            assert(chars@.take(at as int + 1).last() == chars@[at as int]);
            lemma_bytes_grow(chars@, at as int + 1, index as int);
        }
        used = match used.checked_add(len_utf8(chars[at])) {
            Some(sum) => sum,
            None => {
                return None;
            },
        };
        at = at + 1;
    }
    Some(used)
}

/// The text after a change: `text` in place of the stretch from `start`
/// to `end`. A place behind the last line counts as the end of the text,
/// and an end before the start as the start.
pub open spec fn changed(content: Seq<char>, start: Position, end: Position, text: Seq<char>) -> Seq<
    char,
> {
    let from = match seek(content, 0, start.line as nat, start.character as nat) {
        Some(k) => k,
        None => content.len() as int,
    };
    let to = match seek(content, 0, end.line as nat, end.character as nat) {
        Some(k) => if k < from {
            from
        } else {
            k
        },
        None => content.len() as int,
    };
    content.take(from) + text + content.skip(to)
}

/// Applies one change to a text: with a stretch, `text` takes its place;
/// without one, `text` is the whole new text.
pub fn apply_change(content: &str, stretch: Option<(Position, Position)>, text: &str) -> (after:
    String)
    ensures
        after@ == match stretch {
            Some((start, end)) => changed(content@, start, end, text@),
            None => text@,
        },
{
    let (start, end) = match stretch {
        Some(stretch) => stretch,
        None => {
            return String::from_str(text);
        },
    };
    let chars = chars_of(content);
    let total = chars.len();
    let from = match char_index(&chars, start) {
        Some(k) => k,
        None => total,
    };
    let to = match char_index(&chars, end) {
        Some(k) => if k < from {
            from
        } else {
            k
        },
        None => total,
    };
    let mut after = String::from_str(content.substring_char(0, from));
    after.append(text);
    after.append(content.substring_char(to, total));
    proof {
        assert(content@.subrange(0, from as int) =~= content@.take(from as int));
        assert(content@.subrange(to as int, total as int) =~= content@.skip(to as int));
    }
    after
}

/// The lines and columns of a stretch of text given by byte offsets.
pub fn range(code: &str, start: usize, end: usize) -> (range: (Position, Position))
    ensures
        range == (position_of(code@, start), position_of(code@, end)),
{
    (offset_to_pos(code, start), offset_to_pos(code, end))
}

} // verus!
