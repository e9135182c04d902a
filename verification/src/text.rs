//! Names and dotted paths as character sequences.

use vstd::prelude::*;
use vstd::string::StringSliceAdditionalSpecFns;
use vstd::utf8::encode_utf8_decode_utf8;

verus! {

/// Whether two texts hold the same characters.
pub fn same_text(a: &str, b: &str) -> (same: bool)
    ensures
        same == (a@ == b@),
{
    let left = a.as_bytes();
    let right = b.as_bytes();
    proof {
        encode_utf8_decode_utf8(a@);
        encode_utf8_decode_utf8(b@);
    }
    if left.len() != right.len() {
        return false;
    }
    let mut at: usize = 0;
    while at < left.len()
        invariant
            at <= left@.len(),
            left@.len() == right@.len(),
            left@ == a.spec_bytes(),
            right@ == b.spec_bytes(),
            left@.take(at as int) == right@.take(at as int),
        decreases left.len() - at,
    {
        if left[at] != right[at] {
            assert(left@[at as int] != right@[at as int]);
            return false;
        }
        proof {
            assert(left@.take(at as int + 1) =~= left@.take(at as int).push(left@[at as int]));
            assert(right@.take(at as int + 1) =~= right@.take(at as int).push(right@[at as int]));
        }
        at = at + 1;
    }
    proof {
        assert(left@.take(at as int) =~= left@);
        assert(right@.take(at as int) =~= right@);
    }
    true
}

/// The characters of a text.
pub fn chars_of(s: &str) -> (chars: Vec<char>)
    ensures
        chars@ == s@,
{
    let mut chars: Vec<char> = Vec::new();
    for c in it: s.chars()
        invariant
            chars@ == s@.take(it.index() as int),
            it.seq() == s@,
    {
        chars.push(c);
    }
    chars
}

/// Whether `c` is white space, as Unicode's `White_Space` property has it.
pub open spec fn is_space(c: char) -> bool {
    let v = c as u32;
    ||| 0x09 <= v <= 0x0D
    ||| v == 0x20
    ||| v == 0x85
    ||| v == 0xA0
    ||| v == 0x1680
    ||| 0x2000 <= v <= 0x200A
    ||| v == 0x2028
    ||| v == 0x2029
    ||| v == 0x202F
    ||| v == 0x205F
    ||| v == 0x3000
}

/// Whether `c` is white space.
pub fn space(c: char) -> (space: bool)
    ensures
        space == is_space(c),
{
    let v = c as u32;
    (0x09 <= v && v <= 0x0D) || v == 0x20 || v == 0x85 || v == 0xA0 || v == 0x1680 || (0x2000
        <= v && v <= 0x200A) || v == 0x2028 || v == 0x2029 || v == 0x202F || v == 0x205F || v
        == 0x3000
}

/// Whether `s` holds nothing but white space.
pub open spec fn is_blank(s: Seq<char>) -> bool {
    forall|i: int| 0 <= i < s.len() ==> is_space(#[trigger] s[i])
}

/// Whether `s` holds nothing but white space.
pub fn blank(s: &str) -> (blank: bool)
    ensures
        blank == is_blank(s@),
{
    let chars = chars_of(s);
    let mut pos: usize = 0;
    while pos < chars.len()
        invariant
            chars@ == s@,
            pos <= chars.len(),
            forall|i: int| 0 <= i < pos ==> is_space(#[trigger] s@[i]),
        decreases chars.len() - pos,
    {
        if !space(chars[pos]) {
            return false;
        }
        pos = pos + 1;
    }
    true
}

/// `s` without its line feeds.
pub open spec fn without_newlines(s: Seq<char>) -> Seq<char>
    decreases s.len(),
{
    if s.len() == 0 {
        s
    } else if s.last() == '\n' {
        without_newlines(s.drop_last())
    } else {
        without_newlines(s.drop_last()).push(s.last())
    }
}

/// `s` without its line feeds.
pub fn strip_newlines(s: &str) -> (stripped: String)
    ensures
        stripped@ == without_newlines(s@),
{
    let chars = chars_of(s);
    let total = chars.len();
    let mut stripped = String::new();
    let mut start: usize = 0;
    let mut pos: usize = 0;
    proof {
        assert(s@.take(0) =~= Seq::<char>::empty());
        assert(stripped@ + s@.subrange(0, 0) =~= Seq::<char>::empty());
    }
    while pos < total
        invariant
            chars@ == s@,
            total == s@.len(),
            start <= pos <= total,
            stripped@ + s@.subrange(start as int, pos as int) == without_newlines(
                s@.take(pos as int),
            ),
        decreases total - pos,
    {
        let c = chars[pos];
        proof {
            let prefix = s@.take(pos as int + 1);
            assert(prefix.drop_last() =~= s@.take(pos as int));
            assert(prefix.last() == c);
        }
        if c == '\n' {
            stripped.append(s.substring_char(start, pos));
            start = pos + 1;
            proof {
                assert(stripped@ + s@.subrange(start as int, pos as int + 1) =~= stripped@);
            }
        } else {
            proof {
                assert(stripped@ + s@.subrange(start as int, pos as int + 1) =~= (stripped@
                    + s@.subrange(start as int, pos as int)).push(c));
            }
        }
        pos = pos + 1;
    }
    stripped.append(s.substring_char(start, pos));
    proof {
        assert(s@.take(pos as int) =~= s@);
    }
    stripped
}

/// Whether `text` begins with `prefix`.
pub open spec fn is_prefix(prefix: Seq<char>, text: Seq<char>) -> bool {
    prefix.len() <= text.len() && text.take(prefix.len() as int) == prefix
}

/// Whether `text` begins with `prefix`.
pub fn starts_with(text: &str, prefix: &str) -> (starts: bool)
    ensures
        starts == is_prefix(prefix@, text@),
{
    let wanted = prefix.unicode_len();
    if text.unicode_len() < wanted {
        return false;
    }
    same_text(text.substring_char(0, wanted), prefix)
}

/// The parts, with `separator` between each two.
pub open spec fn join_with(parts: Seq<Seq<char>>, separator: Seq<char>) -> Seq<char>
    decreases parts.len(),
{
    if parts.len() == 0 {
        Seq::empty()
    } else if parts.len() == 1 {
        parts[0]
    } else {
        join_with(parts.drop_last(), separator) + separator + parts.last()
    }
}

/// The segments, with a dot between each two.
pub open spec fn join_dots(segments: Seq<Seq<char>>) -> Seq<char> {
    join_with(segments, seq!['.'])
}

/// The first `count` of `parts`, or all of them where there are fewer.
pub open spec fn first_parts(parts: Seq<Seq<char>>, count: usize) -> Seq<Seq<char>> {
    if count < parts.len() {
        parts.take(count as int)
    } else {
        parts
    }
}

/// Joins the first `count` of `parts` with `separator`; all of them where
/// there are fewer.
pub fn join_prefix(parts: &Vec<String>, count: usize, separator: &str) -> (joined: String)
    ensures
        joined@ == join_with(first_parts(parts.deep_view(), count), separator@),
{
    let limit = if count <= parts.len() {
        count
    } else {
        parts.len()
    };
    let ghost all = parts.deep_view();
    let mut joined = String::new();
    let mut at: usize = 0;
    proof {
        assert(all.take(0) =~= Seq::<Seq<char>>::empty());
    }
    while at < limit
        invariant
            at <= limit <= parts.len(),
            all == parts.deep_view(),
            joined@ == join_with(all.take(at as int), separator@),
        decreases limit - at,
    {
        proof {
            assert(all.take(at as int + 1).drop_last() =~= all.take(at as int));
            assert(all.take(at as int + 1).last() == parts@[at as int]@);
        }
        if at > 0 {
            joined.append(separator);
        }
        joined.append(parts[at].as_str());
        at = at + 1;
    }
    proof {
        assert(all.take(all.len() as int) =~= all);
    }
    joined
}

/// Joins `parts` with `separator`.
pub fn join_parts(parts: &Vec<String>, separator: &str) -> (joined: String)
    ensures
        joined@ == join_with(parts.deep_view(), separator@),
{
    join_prefix(parts, parts.len(), separator)
}

/// Joins the first `count` of `segments` with dots; all of them where
/// there are fewer.
pub fn join_first(segments: &Vec<String>, count: usize) -> (joined: String)
    ensures
        joined@ == join_dots(first_parts(segments.deep_view(), count)),
{
    proof {
        reveal_strlit(".");
        assert("."@ =~= seq!['.']);
    }
    join_prefix(segments, count, ".")
}

/// Joins `segments` with dots.
pub fn join_names(segments: &Vec<String>) -> (joined: String)
    ensures
        joined@ == join_dots(segments.deep_view()),
{
    join_first(segments, segments.len())
}

/// The segments of `s` between its dots: a text without a dot is one
/// segment, and every dot starts a new one.
pub open spec fn split_dots(s: Seq<char>) -> Seq<Seq<char>>
    decreases s.len(),
{
    if s.len() == 0 {
        seq![Seq::<char>::empty()]
    } else {
        let init = split_dots(s.drop_last());
        if s.last() == '.' {
            init.push(Seq::<char>::empty())
        } else {
            init.drop_last().push(init.last().push(s.last()))
        }
    }
}

/// Splitting and joining are inverse: a text has at least one segment,
/// no segment holds a dot, and the segments joined with dots are the
/// text again.
pub proof fn lemma_split_join(s: Seq<char>)
    ensures
        split_dots(s).len() >= 1,
        forall|i: int, j: int|
            0 <= i < split_dots(s).len() && 0 <= j < split_dots(s)[i].len() ==> #[trigger] split_dots(
                s,
            )[i][j] != '.',
        join_dots(split_dots(s)) == s,
    decreases s.len(),
{
    if s.len() > 0 {
        let init = split_dots(s.drop_last());
        let dot = seq!['.'];
        lemma_split_join(s.drop_last());
        if s.last() == '.' {
            let all = init.push(Seq::<char>::empty());
            assert(all.drop_last() =~= init);
            assert(join_dots(all) =~= join_dots(init) + dot);
            assert(s =~= s.drop_last() + dot);
            assert forall|i: int, j: int| 0 <= i < all.len() && 0 <= j < all[i].len() implies #[trigger] all[i][j]
                != '.' by {
                assert(all[i] == init[i]);
            }
        } else {
            let grown = init.last().push(s.last());
            let all = init.drop_last().push(grown);
            assert(all.drop_last() =~= init.drop_last());
            assert(s =~= s.drop_last().push(s.last()));
            if init.len() == 1 {
                assert(join_dots(all) =~= join_dots(init).push(s.last()));
            } else {
                assert(join_dots(all) =~= (join_dots(init.drop_last()) + dot + init.last()).push(
                    s.last(),
                ));
            }
            assert forall|i: int, j: int| 0 <= i < all.len() && 0 <= j < all[i].len() implies #[trigger] all[i][j]
                != '.' by {
                if i < all.len() - 1 {
                    assert(all[i] == init[i]);
                } else if j < init.last().len() {
                    assert(all[i][j] == init[init.len() - 1][j]);
                }
            }
        }
    }
}

/// Splits a dotted name into its segments.
pub fn split_name(name: &str) -> (segments: Vec<String>)
    ensures
        segments.deep_view() == split_dots(name@),
        segments.len() >= 1,
{
    let chars = chars_of(name);
    let total = chars.len();
    let mut segments: Vec<String> = Vec::new();
    let mut start: usize = 0;
    let mut pos: usize = 0;
    proof {
        lemma_split_join(name@);
        assert(name@.take(0) =~= Seq::<char>::empty());
        assert(segments.deep_view() =~= Seq::<Seq<char>>::empty());
        assert(name@.subrange(0, 0) =~= Seq::<char>::empty());
    }
    while pos < total
        invariant
            chars@ == name@,
            total == name@.len(),
            start <= pos <= total,
            segments.deep_view().push(name@.subrange(start as int, pos as int)) == split_dots(
                name@.take(pos as int),
            ),
        decreases total - pos,
    {
        let c = chars[pos];
        proof {
            let prefix = name@.take(pos as int + 1);
            assert(prefix.drop_last() =~= name@.take(pos as int));
            assert(prefix.last() == c);
        }
        if c == '.' {
            let piece = name.substring_char(start, pos);
            let ghost before = segments.deep_view();
            segments.push(String::from_str(piece));
            start = pos + 1;
            proof {
                assert(segments.deep_view() =~= before.push(piece@));
                assert(name@.subrange(start as int, pos as int + 1) =~= Seq::<char>::empty());
            }
        } else {
            proof {
                let init = split_dots(name@.take(pos as int));
                assert(init.drop_last() =~= segments.deep_view());
                assert(name@.subrange(start as int, pos as int + 1) =~= init.last().push(c));
            }
        }
        pos = pos + 1;
    }
    let piece = name.substring_char(start, pos);
    let ghost before = segments.deep_view();
    segments.push(String::from_str(piece));
    proof {
        assert(segments.deep_view() =~= before.push(piece@));
        assert(name@.take(pos as int) =~= name@);
    }
    segments
}

} // verus!
