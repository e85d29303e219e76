//! The route table.
//!
//! | Path pattern | Resolves to |
//! |---|---|
//! | `/` | [`Route::Home`] |
//! | `/blog/:id`, `id` a 32-bit integer | [`Route::Blog`] |
//! | anything else | nothing |
//!
//! One `/` may follow the `id`. A query and a fragment are set aside before
//! the path is matched, and each segment is percent-decoded.

use crate::decimal::{
    decimal_string, decimal_text, is_digit, lemma_decimal_text_alphabet, lemma_i32_text_reads_back,
    parse_i32, parsed_i32,
};
use crate::url::{
    chars_of, decode_segment, ends_path, lemma_path_len, lemma_split_on_append,
    lemma_split_on_plain, path_end, path_of, pieces, segment_text, segment_texts, split_on,
    split_segments,
};
use vstd::prelude::*;
use vstd::string::*;

verus! {

/// A page that a location can resolve to, with its parameters.
#[derive(Clone, Copy, Debug, PartialEq, Eq, Structural)]
pub enum Route {
    /// The home page, at `/`.
    Home {},
    /// A blog post, at `/blog/:id`.
    Blog { id: i32 },
}

/// The route that the decoded segments of a path name, if any.
pub open spec fn route_of_segments(texts: Seq<Seq<char>>) -> Option<Route> {
    if texts.len() == 1 && texts[0].len() == 0 {
        Some(Route::Home {})
    } else if texts.len() >= 2 && texts[0] == "blog"@ && (texts.len() == 2 || (texts.len() == 3
        && texts[2].len() == 0)) {
        match parsed_i32(texts[1]) {
            Some(id) => Some(Route::Blog { id }),
            None => None,
        }
    } else {
        None
    }
}

/// The route that a location resolves to, if any.
///
/// The path must start with `/`; what follows is split at each `/` and
/// decoded segment by segment.
pub open spec fn route_of(url: Seq<char>) -> Option<Route> {
    let path = path_of(url);
    if path.len() == 0 || path[0] != '/' {
        None
    } else {
        route_of_segments(segment_texts(split_on(path.skip(1), '/')))
    }
}

/// The path a route is written as.
pub open spec fn path_text(route: Route) -> Seq<char> {
    match route {
        Route::Home {} => "/"@,
        Route::Blog { id } => "/blog/"@ + decimal_text(id as int),
    }
}

/// Whether `text` is the word `blog`.
fn is_blog(text: &Vec<char>) -> (yes: bool)
    ensures
        yes == (text@ == "blog"@),
{
    proof {
        reveal_strlit("blog");
    }
    let yes: bool = text.len() == 4 && text[0] == 'b' && text[1] == 'l' && text[2] == 'o'
        && text[3] == 'g';
    assert(yes ==> text@ =~= "blog"@);
    yes
}

/// Matches the decoded segments of a path against the route table.
pub fn match_segments(texts: &Vec<Vec<char>>) -> (route: Option<Route>)
    ensures
        route == route_of_segments(pieces(texts@)),
{
    let n: usize = texts.len();
    if n == 1 && texts[0].len() == 0 {
        return Some(Route::Home {});
    }
    if n < 2 || n > 3 || !is_blog(&texts[0]) {
        return None;
    }
    if n == 3 && texts[2].len() != 0 {
        return None;
    }
    match parse_i32(texts[1].as_slice()) {
        Some(id) => Some(Route::Blog { id }),
        None => None,
    }
}

/// Resolves a location to its route.
///
/// Returns `None` exactly where the location matches no pattern of the route
/// table: that is the not-found state.
pub fn resolve(url: &str) -> (route: Option<Route>)
    ensures
        route == route_of(url@),
{
    let chars: Vec<char> = chars_of(url);
    let end: usize = path_end(&chars);
    if end == 0 || chars[0] != '/' {
        return None;
    }
    let ghost path = path_of(url@);
    assert(chars@.subrange(1, end as int) =~= path.skip(1));
    let segments: Vec<Vec<char>> = split_segments(&chars, 1, end);
    if segments.len() > 3 {
        return None;
    }
    let mut texts: Vec<Vec<char>> = Vec::new();
    for segment in it: segments
        invariant
            it.seq() == segments@,
            texts@.len() == it.index(),
            forall|j: int|
                0 <= j < texts@.len() ==> (#[trigger] texts@[j])@ == segment_text(segments@[j]@),
    {
        let text: Vec<char> = decode_segment(segment);
        texts.push(text);
    }
    assert(pieces(texts@) =~= segment_texts(pieces(segments@)));
    match_segments(&texts)
}

impl Route {
    /// The path this route is written as; `resolve` leads back from it to
    /// the route.
    pub fn path(&self) -> (text: String)
        ensures
            text@ == path_text(*self),
    {
        match self {
            Route::Home {} => String::from_str("/"),
            Route::Blog { id } => {
                let digits: String = decimal_string(*id);
                String::from_str("/blog/").concat(digits.as_str())
            },
        }
    }
}

/// A route's own path resolves to that route.
pub proof fn lemma_path_resolves(route: Route)
    ensures
        route_of(path_text(route)) == Some(route),
{
    reveal_strlit("/");
    reveal_strlit("/blog/");
    reveal_strlit("blog");
    let text = path_text(route);
    match route {
        Route::Home {} => {
            lemma_path_len(text, 1);
            assert(path_of(text) =~= text);
            assert(text.skip(1) =~= Seq::<char>::empty());
            assert(segment_texts(split_on(text.skip(1), '/')) =~~= seq![Seq::<char>::empty()]);
        },
        Route::Blog { id } => {
            let digits = decimal_text(id as int);
            lemma_decimal_text_alphabet(id as int);
            lemma_i32_text_reads_back(id);
            assert forall|i: int| 0 <= i < text.len() implies !ends_path(#[trigger] text[i]) by {
                if i >= 6 {
                    assert(text[i] == digits[i - 6]);
                }
            }
            lemma_path_len(text, text.len() as int);
            assert(path_of(text) =~= text);
            let word = "blog"@;
            assert(text.skip(1) =~= word.push('/') + digits);
            assert(!word.contains('/'));
            lemma_split_on_plain(word, '/');
            assert(word.push('/').drop_last() =~= word);
            assert(split_on(word.push('/'), '/') =~~= seq![word, Seq::<char>::empty()]);
            assert(!digits.contains('/')) by {
                if digits.contains('/') {
                    let i = choose|i: int| 0 <= i < digits.len() && digits[i] == '/';
                    assert(is_digit(digits[i]) || digits[i] == '-');
                }
            }
            lemma_split_on_append(word.push('/'), digits, '/');
            assert(Seq::<char>::empty() + digits =~= digits);
            let parts = split_on(text.skip(1), '/');
            assert(parts =~~= seq![word, digits]);
            assert(!digits.contains('%')) by {
                if digits.contains('%') {
                    let i = choose|i: int| 0 <= i < digits.len() && digits[i] == '%';
                    assert(is_digit(digits[i]) || digits[i] == '-');
                }
            }
            assert(!word.contains('%'));
            assert(segment_texts(parts) =~~= seq![word, digits]);
        },
    }
}

/// A location resolves to a blog post only where the segment behind `blog`
/// denotes a 32-bit integer, and then to the post with that id.
pub proof fn lemma_blog_needs_integer(texts: Seq<Seq<char>>)
    ensures
        route_of_segments(texts) matches Some(Route::Blog { id }) ==> texts.len() >= 2
            && texts[0] == "blog"@ && parsed_i32(texts[1]) == Some(id),
        texts.len() >= 2 && parsed_i32(texts[1]) is None ==> route_of_segments(texts) is None,
{
}

/// The query and the fragment of a location play no part in resolving it.
pub proof fn lemma_query_and_fragment_ignored(path: Seq<char>, rest: Seq<char>)
    requires
        forall|i: int| 0 <= i < path.len() ==> !ends_path(#[trigger] path[i]),
        rest.len() > 0 ==> ends_path(rest[0]),
    ensures
        route_of(path + rest) == route_of(path),
{
    let url = path + rest;
    assert forall|i: int| 0 <= i < path.len() implies !ends_path(#[trigger] url[i]) by {
        assert(url[i] == path[i]);
    }
    lemma_path_len(url, path.len() as int);
    lemma_path_len(path, path.len() as int);
    assert(path_of(url) =~= path);
    assert(path_of(path) =~= path);
}

/// Every location whose path is `/` resolves to the home page, whatever its
/// query and fragment.
pub proof fn lemma_root_is_home(url: Seq<char>)
    requires
        path_of(url) == "/"@,
    ensures
        route_of(url) == Some(Route::Home {}),
{
    reveal_strlit("/");
    let path = path_of(url);
    assert(path.skip(1) =~= Seq::<char>::empty());
    assert(segment_texts(split_on(path.skip(1), '/')) =~~= seq![Seq::<char>::empty()]);
}

/// Segments that start with anything but nothing or `blog` name no route.
pub proof fn lemma_unknown_first_segment(texts: Seq<Seq<char>>)
    requires
        texts.len() >= 1,
        texts[0].len() > 0,
        texts[0] != "blog"@,
    ensures
        route_of_segments(texts) is None,
{
}

} // verus!
