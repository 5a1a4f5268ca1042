//! The conditions that requests put on entity tags.

use headers::{ETag, Header, HeaderValue, IfMatch, IfNoneMatch};
use vstd::prelude::*;

use crate::entity_tags::is_strong_tag;

verus! {

pub const TAB: u8 = 0x09;

pub const SPACE: u8 = 0x20;

/// What stands in place of a blank that is no part of an entity tag: `!`.
pub const MARK: u8 = 0x21;

pub const QUOTE: u8 = 0x22;

pub const STAR: u8 = 0x2a;

pub const COMMA: u8 = 0x2c;

pub const SLASH: u8 = 0x2f;

/// What marks an entity tag as weak, with a slash after it: `W`.
pub const WEAK: u8 = 0x57;

/// The bytes of a text in ASCII.
pub open spec fn ascii(text: Seq<char>) -> Seq<u8> {
    text.map_values(|c: char| c as u8)
}

/// Whether a line of a header is one strong entity tag.
pub open spec fn is_strong_tag_line(line: Seq<u8>) -> bool {
    &&& line.len() >= 2
    &&& line[0] == QUOTE
    &&& line[line.len() - 1] == QUOTE
    &&& forall|i: int|
        0 < i < line.len() - 1 ==> 0x21 <= #[trigger] line[i] <= 0x7e && line[i] != QUOTE
}

/// Whether some bytes are one entity tag: a strong one, or one that `W/` marks as weak.
pub open spec fn is_tag_line(line: Seq<u8>) -> bool {
    is_strong_tag_line(line) || is_weak_tag_line(line)
}

/// Whether some bytes are one weak entity tag.
pub open spec fn is_weak_tag_line(line: Seq<u8>) -> bool {
    &&& line.len() >= 4
    &&& line[0] == WEAK
    &&& line[1] == SLASH
    &&& is_strong_tag_line(line.skip(2))
}

/// An entity tag without the mark of a weak one.
pub open spec fn opaque(tag: Seq<u8>) -> Seq<u8> {
    if is_weak_tag_line(tag) {
        tag.skip(2)
    } else {
        tag
    }
}

/// Whether one of some entity tags has the given text, be it weak or strong.
pub open spec fn contains_weakly(tags: Seq<Seq<u8>>, text: Seq<u8>) -> bool {
    exists|i: int| 0 <= i < tags.len() && opaque(#[trigger] tags[i]) == text
}

/// Whether some bytes can stand around the entity tags of a list: they are commas and blanks.
pub open spec fn is_gap(gap: Seq<u8>) -> bool {
    forall|i: int|
        0 <= i < gap.len() ==> #[trigger] gap[i] == COMMA || gap[i] == SPACE || gap[i] == TAB
}

/// Entity tags with a gap before each of them.
pub open spec fn spaced(gaps: Seq<Seq<u8>>, tags: Seq<Seq<u8>>) -> Seq<u8>
    decreases tags.len(),
{
    if tags.len() == 0 {
        Seq::empty()
    } else {
        spaced(gaps.drop_last(), tags.drop_last()) + gaps.last() + tags.last()
    }
}

/// Whether a line is a list of entity tags: commas and blanks may stand around them, and at least
/// one comma stands between two of them.
pub open spec fn is_list(
    line: Seq<u8>,
    gaps: Seq<Seq<u8>>,
    tags: Seq<Seq<u8>>,
    rest: Seq<u8>,
) -> bool {
    &&& gaps.len() == tags.len()
    &&& forall|i: int| 0 <= i < tags.len() ==> is_tag_line(#[trigger] tags[i])
    &&& forall|i: int| 0 <= i < gaps.len() ==> is_gap(#[trigger] gaps[i])
    &&& forall|i: int| 0 < i < gaps.len() ==> (#[trigger] gaps[i]).contains(COMMA)
    &&& is_gap(rest)
    &&& line == spaced(gaps, tags) + rest
}

/// Whether a line lists these entity tags, and nothing else.
pub open spec fn lists(line: Seq<u8>, tags: Seq<Seq<u8>>) -> bool {
    exists|gaps: Seq<Seq<u8>>, rest: Seq<u8>| #[trigger] is_list(line, gaps, tags, rest)
}

/// The one line that stands for all the lines of a header: a comma and a space part them.
pub open spec fn joined(lines: Seq<Seq<u8>>) -> Seq<u8>
    decreases lines.len(),
{
    if lines.len() == 0 {
        Seq::empty()
    } else if lines.len() == 1 {
        lines[0]
    } else {
        joined(lines.drop_last()) + seq![COMMA, SPACE] + lines.last()
    }
}

/// How many quotes there are in a line.
pub open spec fn quotes(line: Seq<u8>) -> nat
    decreases line.len(),
{
    if line.len() == 0 {
        0
    } else {
        quotes(line.drop_last()) + if line.last() == QUOTE {
            1nat
        } else {
            0
        }
    }
}

/// Whether the byte at an index of a line is a blank between quotes. An entity tag has none.
pub open spec fn is_quoted_blank(line: Seq<u8>, i: int) -> bool {
    (line[i] == SPACE || line[i] == TAB) && quotes(line.take(i)) % 2 == 1
}

/// A line with a mark in place of every blank between quotes.
pub open spec fn marked(line: Seq<u8>) -> Seq<u8> {
    Seq::new(
        line.len(),
        |i: int|
            if is_quoted_blank(line, i) {
                MARK
            } else {
                line[i]
            },
    )
}

/// Whether conditions on an entity tag can be checked: it is a strong one, and has no mark.
pub open spec fn is_checkable(tag: Seq<char>) -> bool {
    &&& is_strong_tag(tag)
    &&& forall|i: int| 0 <= i < tag.len() ==> #[trigger] tag[i] != MARK as char
}

/// The line that stands for all the lines of a header, with a mark in place of every blank between
/// quotes. A tag that a mark stands in matches no tag that can be checked, as little as it did with
/// the blank.
pub open spec fn condition_line(lines: Seq<Seq<u8>>) -> Seq<u8> {
    marked(joined(lines))
}

/// Joins the lines of a header, and puts a mark in place of every blank between quotes.
fn join_condition(lines: &Vec<Vec<u8>>) -> (line: Vec<u8>)
    ensures
        line@ == condition_line(lines.deep_view()),
        forall|i: int| 0 <= i < line@.len() ==> !is_quoted_blank(line@, i),
{
    let mut whole: Vec<u8> = Vec::new();
    let mut n: usize = 0;
    while n < lines.len()
        invariant
            n <= lines.len(),
            whole@ == joined(lines.deep_view().take(n as int)),
        decreases lines.len() - n,
    {
        if n > 0 {
            whole.push(COMMA);
            whole.push(SPACE);
        }
        whole.extend_from_slice(lines[n].as_slice());
        proof {
            let all = lines.deep_view();
            assert(all.take(n + 1).drop_last() == all.take(n as int));
            assert(all[n as int] == lines@[n as int]@);
        }
        n += 1;
    }
    assert(lines.deep_view().take(n as int) == lines.deep_view());

    let mut line: Vec<u8> = Vec::new();
    let mut quoted = false;
    let mut i: usize = 0;
    while i < whole.len()
        invariant
            i <= whole.len(),
            line@ == marked(whole@).take(i as int),
            quoted == (quotes(whole@.take(i as int)) % 2 == 1),
        decreases whole.len() - i,
    {
        let b: u8 = whole[i];
        proof {
            assert(whole@.take(i + 1).drop_last() == whole@.take(i as int));
        }
        if b == QUOTE {
            quoted = !quoted;
        }
        if quoted && (b == SPACE || b == TAB) {
            line.push(MARK);
        } else {
            line.push(b);
        }
        i += 1;
    }
    proof {
        assert(line@ == marked(whole@));
        assert forall|i: int| 0 <= i < line@.len() implies !is_quoted_blank(line@, i) by {
            lemma_marks_are_no_quotes(whole@, i);
        }
    }
    line
}

/// Marks do not change which bytes of a line stand between quotes.
proof fn lemma_marks_are_no_quotes(line: Seq<u8>, i: int)
    requires
        0 <= i <= line.len(),
    ensures
        quotes(marked(line).take(i)) == quotes(line.take(i)),
    decreases i,
{
    if i > 0 {
        lemma_marks_are_no_quotes(line, i - 1);
        assert(marked(line).take(i).drop_last() == marked(line).take(i - 1));
        assert(line.take(i).drop_last() == line.take(i - 1));
    }
}

/// The quotes of a line are those of its parts.
proof fn lemma_quotes_of_parts(a: Seq<u8>, b: Seq<u8>)
    ensures
        quotes(a + b) == quotes(a) + quotes(b),
    decreases b.len(),
{
    if b.len() == 0 {
        assert(a + b == a);
    } else {
        lemma_quotes_of_parts(a, b.drop_last());
        assert((a + b).drop_last() == a + b.drop_last());
    }
}

/// A strong entity tag has two quotes.
proof fn lemma_quotes_of_tag(line: Seq<u8>, i: int)
    requires
        is_strong_tag_line(line),
        0 <= i <= line.len(),
    ensures
        quotes(line.take(i)) == if i == 0 {
            0nat
        } else if i < line.len() {
            1
        } else {
            2
        },
    decreases i,
{
    if i > 0 {
        lemma_quotes_of_tag(line, i - 1);
        assert(line.take(i).drop_last() == line.take(i - 1));
    }
}

/// An entity tag has two quotes, and no blank.
proof fn lemma_quotes_of_any_tag(tag: Seq<u8>)
    requires
        is_tag_line(tag),
    ensures
        quotes(tag) == 2,
        forall|i: int| 0 <= i < tag.len() ==> #[trigger] tag[i] != SPACE && tag[i] != TAB,
{
    let text = opaque(tag);
    lemma_quotes_of_tag(text, text.len() as int);
    assert(text.take(text.len() as int) == text);
    if is_weak_tag_line(tag) {
        reveal_with_fuel(quotes, 3);
        let mark = seq![WEAK, SLASH];
        assert(mark.drop_last() == seq![WEAK]);
        assert(seq![WEAK].drop_last() == Seq::<u8>::empty());
        assert(quotes(mark) == 0);
        lemma_quotes_of_parts(mark, text);
        assert(mark + text == tag);
        assert forall|i: int| 0 <= i < tag.len() implies #[trigger] tag[i] != SPACE && tag[i]
            != TAB by {
            if i >= 2 {
                assert(tag[i] == text[i - 2]);
            }
        }
    }
}

/// Commas and blanks are no quotes.
proof fn lemma_quotes_of_gap(gap: Seq<u8>)
    requires
        is_gap(gap),
    ensures
        quotes(gap) == 0,
    decreases gap.len(),
{
    if gap.len() > 0 {
        assert(gap[gap.len() - 1] == gap.last());
        lemma_quotes_of_gap(gap.drop_last());
    }
}

/// A line that goes on with commas and blanks after a list has no more blanks between quotes.
proof fn lemma_gap_after(line: Seq<u8>, gap: Seq<u8>)
    requires
        quotes(line) % 2 == 0,
        marked(line) == line,
        is_gap(gap),
    ensures
        quotes(line + gap) % 2 == 0,
        marked(line + gap) == line + gap,
{
    let whole = line + gap;
    lemma_quotes_of_gap(gap);
    lemma_quotes_of_parts(line, gap);
    assert forall|i: int| 0 <= i < whole.len() implies marked(whole)[i] == whole[i] by {
        if i < line.len() {
            assert(whole.take(i) == line.take(i));
            assert(marked(line)[i] == line[i]);
        } else {
            let part = gap.take(i - line.len());
            lemma_quotes_of_gap(part);
            lemma_quotes_of_parts(line, part);
            assert(whole.take(i) == line + part);
        }
    }
    assert(marked(whole) =~= whole);
}

/// A line that goes on with an entity tag after a list has no more blanks between quotes.
proof fn lemma_tag_after(line: Seq<u8>, tag: Seq<u8>)
    requires
        quotes(line) % 2 == 0,
        marked(line) == line,
        is_tag_line(tag),
    ensures
        quotes(line + tag) % 2 == 0,
        marked(line + tag) == line + tag,
{
    let whole = line + tag;
    lemma_quotes_of_any_tag(tag);
    lemma_quotes_of_parts(line, tag);
    assert forall|i: int| 0 <= i < whole.len() implies marked(whole)[i] == whole[i] by {
        if i < line.len() {
            assert(whole.take(i) == line.take(i));
            assert(marked(line)[i] == line[i]);
        } else {
            assert(whole[i] == tag[i - line.len()]);
        }
    }
    assert(marked(whole) =~= whole);
}

/// What is left of a list without its last tag is a list, too, with the gap before that tag at its
/// end.
proof fn lemma_list_without_last(
    line: Seq<u8>,
    gaps: Seq<Seq<u8>>,
    tags: Seq<Seq<u8>>,
    rest: Seq<u8>,
)
    requires
        is_list(line, gaps, tags, rest),
        tags.len() > 0,
    ensures
        ({
            let before = spaced(gaps.drop_last(), tags.drop_last()) + gaps.last();
            &&& is_list(before, gaps.drop_last(), tags.drop_last(), gaps.last())
            &&& line == before + tags.last() + rest
            &&& is_tag_line(tags.last())
            &&& tags.len() > 1 ==> gaps.last().len() > 0
        }),
{
    assert(is_gap(gaps[gaps.len() - 1]));
    assert(is_tag_line(tags[tags.len() - 1]));
    if tags.len() > 1 {
        assert(gaps[gaps.len() - 1].contains(COMMA));
    }
}

/// A list of entity tags has no blank between quotes.
proof fn lemma_lists_have_no_blanks(
    line: Seq<u8>,
    gaps: Seq<Seq<u8>>,
    tags: Seq<Seq<u8>>,
    rest: Seq<u8>,
)
    requires
        is_list(line, gaps, tags, rest),
    ensures
        quotes(line) % 2 == 0,
        marked(line) == line,
    decreases tags.len(),
{
    if tags.len() == 0 {
        let none = Seq::<u8>::empty();
        assert(marked(none) =~= none);
        assert(line == none + rest);
        lemma_gap_after(none, rest);
    } else {
        let before = spaced(gaps.drop_last(), tags.drop_last()) + gaps.last();
        lemma_list_without_last(line, gaps, tags, rest);
        lemma_lists_have_no_blanks(before, gaps.drop_last(), tags.drop_last(), gaps.last());
        lemma_tag_after(before, tags.last());
        lemma_gap_after(before + tags.last(), rest);
    }
}

/// Whether an `If-Match` header of one line lets a request pass, for a resource with a given entity
/// tag; `None` if it is no such header.
pub uninterp spec fn if_match_verdict(line: Seq<u8>, tag: Seq<char>) -> Option<bool>;

/// `IfMatch::decode` of a line and `IfMatch::precondition_passes` of an `ETag`: the verdict of the
/// header on a strong entity tag, which depends on the two alone. `*` lets every request pass, and
/// a list of entity tags those for a resource with one of them; a weak one is none of a resource.
#[verifier::external_body]
fn if_match_passes(line: &Vec<u8>, tag: &str) -> (passes: Option<bool>)
    requires
        is_strong_tag(tag@),
        forall|i: int| 0 <= i < line@.len() ==> !is_quoted_blank(line@, i),
    ensures
        passes == if_match_verdict(line@, tag@),
        line@ == seq![STAR] ==> passes == Some(true),
        forall|tags: Seq<Seq<u8>>| #[trigger]
            lists(line@, tags) ==> passes == Some(tags.contains(ascii(tag@))),
{
    let tag: ETag = tag.parse().ok()?;
    let value = HeaderValue::from_bytes(line).ok()?;
    let condition = IfMatch::decode(&mut std::iter::once(&value)).ok()?;
    Some(condition.precondition_passes(&tag))
}

/// Whether an `If-None-Match` header of one line lets a request pass, for a resource with a given
/// entity tag; `None` if it is no such header.
pub uninterp spec fn if_none_match_verdict(line: Seq<u8>, tag: Seq<char>) -> Option<bool>;

/// `IfNoneMatch::decode` of a line and `IfNoneMatch::precondition_passes` of an `ETag`: the verdict
/// of the header on a strong entity tag, which depends on the two alone. `*` lets no request pass,
/// and a list of entity tags those for a resource with none of them, weak or strong.
#[verifier::external_body]
fn if_none_match_passes(line: &Vec<u8>, tag: &str) -> (passes: Option<bool>)
    requires
        is_strong_tag(tag@),
        forall|i: int| 0 <= i < line@.len() ==> !is_quoted_blank(line@, i),
    ensures
        passes == if_none_match_verdict(line@, tag@),
        line@ == seq![STAR] ==> passes == Some(false),
        forall|tags: Seq<Seq<u8>>| #[trigger]
            lists(line@, tags) ==> passes == Some(!contains_weakly(tags, ascii(tag@))),
{
    let tag: ETag = tag.parse().ok()?;
    let value = HeaderValue::from_bytes(line).ok()?;
    let condition = IfNoneMatch::decode(&mut std::iter::once(&value)).ok()?;
    Some(condition.precondition_passes(&tag))
}

/// The last tag of a list is at the end of its line, and no longer one is there.
proof fn lemma_last_tag(
    line: Seq<u8>,
    ga: Seq<Seq<u8>>,
    a: Seq<Seq<u8>>,
    ra: Seq<u8>,
    gb: Seq<Seq<u8>>,
    b: Seq<Seq<u8>>,
    rb: Seq<u8>,
)
    requires
        is_list(line, ga, a, ra),
        is_list(line, gb, b, rb),
        a.len() > 0,
        b.len() > 0,
    ensures
        ra.len() == rb.len(),
        b.last().len() <= a.last().len(),
{
    lemma_list_without_last(line, ga, a, ra);
    lemma_list_without_last(line, gb, b, rb);
    let (s, t) = (a.last(), b.last());
    let before = spaced(ga.drop_last(), a.drop_last()) + ga.last();
    lemma_tag_ends(s);
    lemma_tag_ends(t);
    // The last quote of the line ends the last tag
    let (end_s, end_t) = (line.len() - ra.len(), line.len() - rb.len());
    assert(line[end_s - 1] == s[s.len() - 1]);
    assert(line[end_t - 1] == t[t.len() - 1]);
    if end_s < end_t {
        assert(line[end_t - 1] == ra[end_t - 1 - end_s]);
    } else if end_t < end_s {
        assert(line[end_s - 1] == rb[end_s - 1 - end_t]);
    }
    if t.len() > s.len() {
        let d = t.len() - s.len();
        assert(forall|i: int|
            0 <= i < s.len() ==> s[i] == #[trigger] line[end_s - s.len() + i]);
        assert(forall|i: int| 0 <= i < t.len() ==> #[trigger] t[i] == line[end_t - t.len() + i]);
        // The quote that begins the shorter tag would stand inside the longer one, or the shorter
        // tag would have a slash before it
        let q: int = if is_weak_tag_line(s) {
            2
        } else {
            0
        };
        assert(s[q] == line[end_s - s.len() + q]);
        assert(t[d + q] == s[q]);
        assert(t[d + q] == QUOTE);
        assert(q == 0 && d == 2 && is_weak_tag_line(t));
        assert(t[1] == SLASH);
        assert(before.len() > 0);
        assert(before.last() == line[end_s - s.len() - 1]);
        assert(before.last() == t[1]);
        if ga.last().len() == 0 {
            assert(a.len() == 1);
            assert(a.drop_last().len() == 0);
        }
        assert(before.last() == ga.last()[ga.last().len() - 1]);
    }
}

/// An entity tag ends with a quote, and has only one more: at its beginning, or after its mark.
proof fn lemma_tag_ends(tag: Seq<u8>)
    requires
        is_tag_line(tag),
    ensures
        tag.len() >= 2,
        tag[tag.len() - 1] == QUOTE,
        is_weak_tag_line(tag) ==> tag.len() >= 4 && tag[2] == QUOTE,
        !is_weak_tag_line(tag) ==> tag[0] == QUOTE,
        forall|i: int|
            0 <= i < tag.len() - 1 && #[trigger] tag[i] == QUOTE ==> i == if is_weak_tag_line(tag) {
                2int
            } else {
                0
            },
{
    if is_weak_tag_line(tag) {
        let text = tag.skip(2);
        assert(tag[2] == text[0]);
        assert(tag[tag.len() - 1] == text[text.len() - 1]);
        assert forall|i: int| 0 <= i < tag.len() - 1 && #[trigger] tag[i] == QUOTE implies i
            == 2 by {
            if i > 2 {
                assert(tag[i] == text[i - 2]);
            }
        }
    }
}

/// A line lists only one sequence of entity tags.
proof fn lemma_list_is_unique(
    line: Seq<u8>,
    ga: Seq<Seq<u8>>,
    a: Seq<Seq<u8>>,
    ra: Seq<u8>,
    gb: Seq<Seq<u8>>,
    b: Seq<Seq<u8>>,
    rb: Seq<u8>,
)
    requires
        is_list(line, ga, a, ra),
        is_list(line, gb, b, rb),
    ensures
        a == b,
    decreases a.len(),
{
    if a.len() == 0 {
        if b.len() > 0 {
            lemma_gap_lists_nothing(line, gb, b, rb);
        }
    } else if b.len() == 0 {
        lemma_gap_lists_nothing(line, ga, a, ra);
    } else {
        lemma_last_tag(line, ga, a, ra, gb, b, rb);
        lemma_last_tag(line, gb, b, rb, ga, a, ra);
        lemma_list_without_last(line, ga, a, ra);
        lemma_list_without_last(line, gb, b, rb);
        let before = spaced(ga.drop_last(), a.drop_last()) + ga.last();
        let other = spaced(gb.drop_last(), b.drop_last()) + gb.last();
        let n = line.len() - ra.len() - a.last().len();
        assert(before =~= line.take(n));
        assert(other =~= line.take(n));
        assert(a.last() =~= line.subrange(n, n + a.last().len()));
        assert(b.last() =~= line.subrange(n, n + a.last().len()));
        lemma_list_is_unique(
            before,
            ga.drop_last(),
            a.drop_last(),
            ga.last(),
            gb.drop_last(),
            b.drop_last(),
            gb.last(),
        );
        assert(a =~= a.drop_last().push(a.last()));
        assert(b =~= b.drop_last().push(b.last()));
    }
}

/// Commas and blanks list no entity tag.
proof fn lemma_gap_lists_nothing(
    line: Seq<u8>,
    gaps: Seq<Seq<u8>>,
    tags: Seq<Seq<u8>>,
    rest: Seq<u8>,
)
    requires
        is_list(line, gaps, tags, rest),
        tags.len() > 0,
    ensures
        !is_gap(line),
        line != seq![STAR],
{
    lemma_list_without_last(line, gaps, tags, rest);
    lemma_tag_ends(tags.last());
    let end = line.len() - rest.len();
    assert(line[end - 1] == tags.last()[tags.last().len() - 1]);
}

/// What an `If-Match` header says of a request on a resource with a given entity tag, if there is
/// such a header and it can be read. `*` lets every request pass, and a list of entity tags those
/// for a resource with one of them; a weak one is none of a resource.
pub open spec fn if_match_answer(lines: Seq<Seq<u8>>, tag: Seq<char>) -> Option<bool> {
    if lines.len() == 0 {
        None
    } else if joined(lines) == seq![STAR] {
        Some(true)
    } else if exists|tags: Seq<Seq<u8>>| lists(joined(lines), tags) {
        let tags = choose|tags: Seq<Seq<u8>>| lists(joined(lines), tags);
        Some(tags.contains(ascii(tag)))
    } else {
        if_match_verdict(condition_line(lines), tag)
    }
}

/// Whether an `If-Match` header keeps a request from being carried out on a resource with a given
/// entity tag.
pub open spec fn if_match_blocks(lines: Seq<Seq<u8>>, tag: Seq<char>) -> bool {
    if_match_answer(lines, tag) == Some(false)
}

/// The verdict of an `If-Match` header, if there is one that can be read.
pub fn check_if_match(lines: &Vec<Vec<u8>>, tag: &str) -> (passes: Option<bool>)
    requires
        is_checkable(tag@),
    ensures
        passes == if_match_answer(lines.deep_view(), tag@),
{
    if lines.len() == 0 {
        return None;
    }
    proof {
        lemma_condition_line(lines.deep_view());
    }
    if_match_passes(&join_condition(lines), tag)
}

/// What an `If-None-Match` header says of a request on a resource with a given entity tag, if there
/// is such a header and it can be read. `*` lets no request pass, and a list of entity tags those
/// for a resource with none of them, weak or strong.
pub open spec fn if_none_match_answer(lines: Seq<Seq<u8>>, tag: Seq<char>) -> Option<bool> {
    if lines.len() == 0 {
        None
    } else if joined(lines) == seq![STAR] {
        Some(false)
    } else if exists|tags: Seq<Seq<u8>>| lists(joined(lines), tags) {
        let tags = choose|tags: Seq<Seq<u8>>| lists(joined(lines), tags);
        Some(!contains_weakly(tags, ascii(tag)))
    } else {
        if_none_match_verdict(condition_line(lines), tag)
    }
}

/// Whether an `If-None-Match` header keeps a request from being carried out on a resource with a
/// given entity tag.
pub open spec fn if_none_match_blocks(lines: Seq<Seq<u8>>, tag: Seq<char>) -> bool {
    if_none_match_answer(lines, tag) == Some(false)
}

/// The verdict of an `If-None-Match` header, if there is one that can be read.
pub fn check_if_none_match(lines: &Vec<Vec<u8>>, tag: &str) -> (passes: Option<bool>)
    requires
        is_checkable(tag@),
    ensures
        passes == if_none_match_answer(lines.deep_view(), tag@),
{
    if lines.len() == 0 {
        return None;
    }
    proof {
        lemma_condition_line(lines.deep_view());
    }
    if_none_match_passes(&join_condition(lines), tag)
}

/// `*` stands for itself, and so does a list of entity tags.
proof fn lemma_condition_line(lines: Seq<Seq<u8>>)
    ensures
        joined(lines) == seq![STAR] ==> condition_line(lines) == seq![STAR],
        forall|tags: Seq<Seq<u8>>| #[trigger]
            lists(joined(lines), tags) ==> condition_line(lines) == joined(lines),
{
    if joined(lines) == seq![STAR] {
        assert(condition_line(lines) =~= seq![STAR]);
    }
    assert forall|tags: Seq<Seq<u8>>| #[trigger]
        lists(joined(lines), tags) implies condition_line(lines) == joined(lines) by {
        let (gaps, rest) = choose|gaps: Seq<Seq<u8>>, rest: Seq<u8>| #[trigger]
            is_list(joined(lines), gaps, tags, rest);
        lemma_lists_have_no_blanks(joined(lines), gaps, tags, rest);
    }
}

/// A header that lists entity tags lets a request pass by these tags: for `If-Match` one of them is
/// to be that of the resource, and for `If-None-Match` none of them, be it weak or strong.
pub proof fn law_listed_tags(lines: Seq<Seq<u8>>, tags: Seq<Seq<u8>>, tag: Seq<char>)
    requires
        lines.len() > 0,
        lists(joined(lines), tags),
    ensures
        if_match_answer(lines, tag) == Some(tags.contains(ascii(tag))),
        if_none_match_answer(lines, tag) == Some(!contains_weakly(tags, ascii(tag))),
{
    let line = joined(lines);
    let chosen = choose|tags: Seq<Seq<u8>>| lists(line, tags);
    let (ga, ra) = choose|gaps: Seq<Seq<u8>>, rest: Seq<u8>| #[trigger]
        is_list(line, gaps, tags, rest);
    let (gb, rb) = choose|gaps: Seq<Seq<u8>>, rest: Seq<u8>| #[trigger]
        is_list(line, gaps, chosen, rest);
    lemma_list_is_unique(line, ga, tags, ra, gb, chosen, rb);
    if tags.len() > 0 {
        lemma_gap_lists_nothing(line, ga, tags, ra);
    } else if line == seq![STAR] {
        assert(ra[0] == line[0]);
    }
}

/// Weak entity tags match no resource for `If-Match`, whose tags are strong.
pub proof fn law_weak_tags_never_match(lines: Seq<Seq<u8>>, tags: Seq<Seq<u8>>, tag: Seq<char>)
    requires
        lines.len() > 0,
        lists(joined(lines), tags),
        forall|i: int| 0 <= i < tags.len() ==> is_weak_tag_line(#[trigger] tags[i]),
        is_strong_tag(tag),
    ensures
        if_match_answer(lines, tag) == Some(false),
{
    law_listed_tags(lines, tags, tag);
    assert(ascii(tag)[0] == QUOTE);
}

/// Entity tags in lines of their own are a list.
pub proof fn law_tags_in_lines(lines: Seq<Seq<u8>>)
    requires
        forall|i: int| 0 <= i < lines.len() ==> is_tag_line(#[trigger] lines[i]),
    ensures
        lists(joined(lines), lines),
{
    let gap = seq![COMMA, SPACE];
    let gaps = Seq::new(
        lines.len(),
        |i: int|
            if i == 0 {
                Seq::empty()
            } else {
                gap
            },
    );
    assert(gap[0] == COMMA);
    lemma_joined_is_spaced(lines, gaps);
    assert(is_list(joined(lines), gaps, lines, Seq::empty()));
}

/// Lines are joined by gaps of a comma and a space.
proof fn lemma_joined_is_spaced(lines: Seq<Seq<u8>>, gaps: Seq<Seq<u8>>)
    requires
        gaps.len() == lines.len(),
        forall|i: int|
            0 <= i < gaps.len() ==> #[trigger] gaps[i] == if i == 0 {
                Seq::empty()
            } else {
                seq![COMMA, SPACE]
            },
    ensures
        joined(lines) == spaced(gaps, lines),
    decreases lines.len(),
{
    if lines.len() == 1 {
        assert(gaps.last() == Seq::<u8>::empty());
        assert(spaced(gaps.drop_last(), lines.drop_last()) == Seq::<u8>::empty());
        assert(spaced(gaps, lines) =~= lines[0]);
    } else if lines.len() > 1 {
        lemma_joined_is_spaced(lines.drop_last(), gaps.drop_last());
    }
}

/// `*` lets every request pass that is to match, and none that is not to.
pub proof fn law_star(tag: Seq<char>)
    ensures
        if_match_answer(seq![seq![STAR]], tag) == Some(true),
        if_none_match_answer(seq![seq![STAR]], tag) == Some(false),
{
}

} // verus!
