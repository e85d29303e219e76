//! The path of a location and its segments.
//!
//! A location is a path, optionally followed by a query (behind `?`) and a
//! fragment (behind `#`). The path is a run of segments, each introduced by
//! `/`. A segment may hold percent escapes, which are decoded before the
//! segment is compared with a route pattern.

use vstd::prelude::*;

verus! {

/// `c` ends the path of a location: the query starts at `?`, the fragment at
/// `#`.
pub open spec fn ends_path(c: char) -> bool {
    c == '?' || c == '#'
}

/// The length of the path of `url`: the number of characters in front of the
/// first `?` or `#`.
pub open spec fn path_len(url: Seq<char>) -> nat
    decreases url.len(),
{
    if url.len() == 0 || ends_path(url[0]) {
        0
    } else {
        1 + path_len(url.skip(1))
    }
}

/// The path of `url`: everything in front of the query and the fragment.
pub open spec fn path_of(url: Seq<char>) -> Seq<char> {
    url.take(path_len(url) as int)
}

/// The pieces of `s` between occurrences of `sep`, in order. There is one
/// piece more than there are separators; a piece may be empty.
pub open spec fn split_on(s: Seq<char>, sep: char) -> Seq<Seq<char>>
    decreases s.len(),
{
    if s.len() == 0 {
        seq![Seq::<char>::empty()]
    } else {
        let before = split_on(s.drop_last(), sep);
        if s.last() == sep {
            before.push(Seq::<char>::empty())
        } else {
            before.drop_last().push(before.last().push(s.last()))
        }
    }
}

/// The pieces `parts` put together again, with `sep` between neighbours.
pub open spec fn joined(parts: Seq<Seq<char>>, sep: char) -> Seq<char>
    decreases parts.len(),
{
    if parts.len() == 0 {
        Seq::empty()
    } else if parts.len() == 1 {
        parts[0]
    } else {
        joined(parts.drop_last(), sep).push(sep) + parts.last()
    }
}

/// What percent-decoding makes of a segment that holds a `%`: the decoded
/// text, or nothing where the decoded bytes are not UTF-8.
pub uninterp spec fn percent_decoded(segment: Seq<char>) -> Option<Seq<char>>;

/// The text of a segment: the segment itself where it holds no `%` or cannot
/// be decoded, otherwise what decoding makes of it.
pub open spec fn segment_text(segment: Seq<char>) -> Seq<char> {
    if segment.contains('%') {
        match percent_decoded(segment) {
            Some(text) => text,
            None => segment,
        }
    } else {
        segment
    }
}

/// The texts of all of `segments`.
pub open spec fn segment_texts(segments: Seq<Seq<char>>) -> Seq<Seq<char>> {
    Seq::new(segments.len(), |i: int| segment_text(segments[i]))
}

/// The characters of a nested vector, as sequences.
pub open spec fn pieces(v: Seq<Vec<char>>) -> Seq<Seq<char>> {
    Seq::new(v.len(), |i: int| v[i]@)
}

/// Calls `urlencoding::decode`, as the router exports it, on the segment.
///
/// Nothing is proved of that call. The contract gives its outcome a name and
/// claims no more: `percent_decoded` is what the call makes of these
/// characters, `None` standing for the error that it returns where the decoded
/// bytes are not UTF-8.
#[verifier::external_body]
fn percent_decode(segment: &Vec<char>) -> (decoded: Option<Vec<char>>)
    ensures
        decoded is Some <==> percent_decoded(segment@) is Some,
        decoded matches Some(text) ==> percent_decoded(segment@) == Some(text@),
{
    let raw: String = segment.iter().collect();
    match dioxus::router::exports::urlencoding::decode(&raw) {
        Ok(text) => Some(text.chars().collect()),
        Err(_) => None,
    }
}

/// The characters of `text`, in order.
pub fn chars_of(text: &str) -> (chars: Vec<char>)
    ensures
        chars@ == text@,
{
    let mut chars: Vec<char> = Vec::new();
    for c in it: text.chars()
        invariant
            it.seq() == text@,
            chars@ == it.seq().take(it.index()),
    {
        chars.push(c);
    }
    chars
}

/// Whether `segment` holds a `%`.
fn has_escape(segment: &Vec<char>) -> (found: bool)
    ensures
        found == segment@.contains('%'),
{
    let mut i: usize = 0;
    while i < segment.len()
        invariant
            i <= segment.len(),
            forall|j: int| 0 <= j < i ==> segment@[j] != '%',
        decreases segment.len() - i,
    {
        if segment[i] == '%' {
            return true;
        }
        i = i + 1;
    }
    false
}

/// The text of one segment, with its percent escapes decoded.
pub fn decode_segment(segment: Vec<char>) -> (text: Vec<char>)
    ensures
        text@ == segment_text(segment@),
{
    if !has_escape(&segment) {
        return segment;
    }
    match percent_decode(&segment) {
        Some(text) => text,
        None => segment,
    }
}

/// Where the path of `url` ends.
pub fn path_end(url: &Vec<char>) -> (end: usize)
    ensures
        end == path_len(url@),
        end <= url@.len(),
{
    let mut end: usize = 0;
    while end < url.len() && url[end] != '?' && url[end] != '#'
        invariant
            end <= url.len(),
            forall|i: int| 0 <= i < end ==> !ends_path(#[trigger] url@[i]),
        decreases url.len() - end,
    {
        end = end + 1;
    }
    proof {
        lemma_path_len(url@, end as int);
    }
    end
}

/// Splits `chars[from..to]` at each `/`.
pub fn split_segments(chars: &Vec<char>, from: usize, to: usize) -> (segments: Vec<Vec<char>>)
    requires
        from <= to <= chars@.len(),
    ensures
        pieces(segments@) == split_on(chars@.subrange(from as int, to as int), '/'),
{
    let mut done: Vec<Vec<char>> = Vec::new();
    let mut current: Vec<char> = Vec::new();
    let mut i: usize = from;
    while i < to
        invariant
            from <= i <= to <= chars@.len(),
            pieces(done@).push(current@) == split_on(chars@.subrange(from as int, i as int), '/'),
        decreases to - i,
    {
        let c: char = chars[i];
        proof {
            let grown = chars@.subrange(from as int, i + 1);
            assert(grown.drop_last() =~= chars@.subrange(from as int, i as int));
            assert(grown.last() == c);
        }
        let ghost before = pieces(done@).push(current@);
        if c == '/' {
            done.push(current);
            current = Vec::new();
            assert(pieces(done@).push(current@) =~= before.push(Seq::<char>::empty()));
        } else {
            current.push(c);
            assert(pieces(done@).push(current@) =~= before.drop_last().push(
                before.last().push(c),
            ));
        }
        i = i + 1;
    }
    let ghost all = pieces(done@).push(current@);
    done.push(current);
    assert(pieces(done@) =~= all);
    assert(chars@.subrange(from as int, i as int) == chars@.subrange(from as int, to as int));
    done
}

/// The path of a location holds no `?` and no `#`, and ends where the
/// location ends or in front of one of the two.
pub proof fn lemma_path_of(url: Seq<char>)
    ensures
        path_len(url) <= url.len(),
        forall|i: int| 0 <= i < path_len(url) ==> !ends_path(#[trigger] url[i]),
        path_len(url) < url.len() ==> ends_path(url[path_len(url) as int]),
    decreases url.len(),
{
    if url.len() > 0 && !ends_path(url[0]) {
        let rest = url.skip(1);
        lemma_path_of(rest);
        assert forall|i: int| 0 <= i < path_len(url) implies !ends_path(#[trigger] url[i]) by {
            if i > 0 {
                assert(url[i] == rest[i - 1]);
            }
        }
        if path_len(url) < url.len() {
            assert(url[path_len(url) as int] == rest[path_len(rest) as int]);
        }
    }
}

/// No other position does: `path_len` is the one position that has no `?` or
/// `#` in front of it and is either the end of `url` or holds one.
pub proof fn lemma_path_len(url: Seq<char>, end: int)
    requires
        0 <= end <= url.len(),
        forall|i: int| 0 <= i < end ==> !ends_path(#[trigger] url[i]),
        end < url.len() ==> ends_path(url[end]),
    ensures
        path_len(url) == end,
    decreases end,
{
    if end > 0 {
        let rest = url.skip(1);
        assert forall|i: int| 0 <= i < end - 1 implies !ends_path(#[trigger] rest[i]) by {
            assert(rest[i] == url[i + 1]);
        }
        lemma_path_len(rest, end - 1);
    }
}

/// A text without the separator is a single piece.
pub proof fn lemma_split_on_plain(s: Seq<char>, sep: char)
    requires
        !s.contains(sep),
    ensures
        split_on(s, sep) == seq![s],
    decreases s.len(),
{
    if s.len() == 0 {
        assert(s =~= Seq::<char>::empty());
    } else {
        let front = s.drop_last();
        assert forall|i: int| 0 <= i < front.len() implies front[i] != sep by {
            assert(s.contains(s[i]));
        }
        assert(s.contains(s.last()));
        lemma_split_on_plain(front, sep);
        assert(front.push(s.last()) =~= s);
        assert(split_on(s, sep) =~= seq![s]);
    }
}

/// Text without the separator, appended to `a`, lengthens the last piece of
/// `a` and leaves the others as they are.
pub proof fn lemma_split_on_append(a: Seq<char>, b: Seq<char>, sep: char)
    requires
        !b.contains(sep),
    ensures
        split_on(a + b, sep) == split_on(a, sep).drop_last().push(split_on(a, sep).last() + b),
        split_on(a, sep).len() >= 1,
    decreases b.len(),
{
    lemma_split_on_joins(a, sep);
    let pa = split_on(a, sep);
    if b.len() == 0 {
        assert(a + b =~= a);
        assert(pa.last() + b =~= pa.last());
        assert(pa.drop_last().push(pa.last()) =~= pa);
    } else {
        let front = b.drop_last();
        assert forall|i: int| 0 <= i < front.len() implies front[i] != sep by {
            assert(b.contains(b[i]));
        }
        assert(b.contains(b.last()));
        lemma_split_on_append(a, front, sep);
        assert((a + b).drop_last() =~= a + front);
        assert((a + b).last() == b.last());
        let before = split_on(a + front, sep);
        assert(before.last().push(b.last()) =~= pa.last() + b);
        assert(before.drop_last() =~= pa.drop_last());
    }
}

/// Splitting loses nothing and leaves no separator behind: the pieces, put
/// together again, are the text, and no piece holds the separator.
pub proof fn lemma_split_on_joins(s: Seq<char>, sep: char)
    ensures
        split_on(s, sep).len() >= 1,
        joined(split_on(s, sep), sep) == s,
        forall|i: int|
            0 <= i < split_on(s, sep).len() ==> !(#[trigger] split_on(s, sep)[i]).contains(sep),
    decreases s.len(),
{
    let parts = split_on(s, sep);
    if s.len() == 0 {
        assert(joined(parts, sep) =~= s);
    } else {
        let front = s.drop_last();
        let before = split_on(front, sep);
        lemma_split_on_joins(front, sep);
        assert(front.push(s.last()) =~= s);
        if s.last() == sep {
            assert(parts.drop_last() =~= before);
            assert(joined(parts, sep) =~= s);
            assert forall|i: int| 0 <= i < parts.len() implies !(#[trigger] parts[i]).contains(
                sep,
            ) by {
                if i < before.len() {
                    assert(parts[i] == before[i]);
                }
            }
        } else {
            let grown = before.last().push(s.last());
            if before.len() == 1 {
                assert(before.last() == before[0]);
                assert(joined(parts, sep) =~= s);
            } else {
                assert(parts.drop_last() =~= before.drop_last());
                assert(joined(parts, sep) =~= joined(before, sep).push(s.last()));
            }
            assert forall|i: int| 0 <= i < parts.len() implies !(#[trigger] parts[i]).contains(
                sep,
            ) by {
                if i < before.len() - 1 {
                    assert(parts[i] == before[i]);
                } else {
                    assert(!before[i].contains(sep));
                    if grown.contains(sep) {
                        let k = choose|k: int| 0 <= k < grown.len() && grown[k] == sep;
                        if k < before.last().len() {
                            assert(before.last()[k] == sep);
                            assert(before.last().contains(sep));
                        }
                    }
                }
            }
        }
    }
}

} // verus!
