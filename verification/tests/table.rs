use dioxus::router::exports::urlencoding::decode;
use portfolio::decimal::parse_i32;
use portfolio::{resolve, Route};

/// Whether nothing, or one empty segment, is left.
fn at_end<'a>(mut rest: impl Iterator<Item = std::borrow::Cow<'a, str>>) -> bool {
    let next = rest.next();
    let after = rest.next();
    matches!((next.as_deref(), after.as_deref()), (None, _) | (Some(""), None))
}

/// The route table, written out with the standard library's splitting and
/// parsing.
fn by_hand(location: &str) -> Option<Route> {
    let (path, _fragment) = location.split_once('#').unwrap_or((location, ""));
    let (path, _query) = path.split_once('?').unwrap_or((path, ""));
    let mut segments = path.split('/').map(|s| decode(s).unwrap_or(s.into()));
    if !location.starts_with('/') {
        return None;
    }
    let _ = segments.next();
    if at_end(segments.clone()) {
        return Some(Route::Home {});
    }
    let mut rest = segments.clone();
    if rest.next().as_deref() != Some("blog") {
        return None;
    }
    let id = rest.next()?.parse::<i32>().ok()?;
    if at_end(rest) {
        Some(Route::Blog { id })
    } else {
        None
    }
}

/// A small generator of repeatable pseudo-random numbers.
struct Dice(u64);

impl Dice {
    fn roll(&mut self, sides: usize) -> usize {
        self.0 = self.0.wrapping_mul(6364136223846793005).wrapping_add(1442695040888963407);
        ((self.0 >> 33) as usize) % sides
    }

    fn text(&mut self, alphabet: &[&str], longest: usize) -> String {
        let length = self.roll(longest + 1);
        (0..length).map(|_| alphabet[self.roll(alphabet.len())]).collect()
    }
}

#[test]
fn by_hand_table_knows_the_plain_cases() {
    assert_eq!(by_hand("/"), Some(Route::Home {}));
    assert_eq!(by_hand("/blog/42"), Some(Route::Blog { id: 42 }));
    assert_eq!(by_hand("/blog/abc"), None);
    assert_eq!(by_hand("/nonexistent"), None);
}

#[test]
fn resolve_agrees_with_the_table_written_by_hand() {
    let samples = [
        "", "/", "//", "///", "/?", "/#", "/?a#b", "/#a?b", "?/", "#/", "/blog", "/blog/",
        "/blog/1", "/blog/1/", "/blog/1//", "/blog/1/2", "/blog//1", "/blog/-1", "/blog/+1",
        "/blog/--1", "/blog/1?x", "/blog/1#x", "/blog/1/?x#y", "/blog/%31", "/blog/%3", "/blog/%",
        "/blog/%2B1", "/blog/%2b1", "/blog/1%2F", "/%62%6c%6f%67/1", "/blog%2F1", "/blog/%ff",
        "/blog/1%00", "/blog/2147483647", "/blog/2147483648", "/blog/-2147483648",
        "/blog/-2147483649", "/Blog/1", "/blog /1", "/blog/ 1", "/blog/1 ", "/blog/１", "blog/1",
        " /blog/1", "/blog/1/%", "/blog/1/%20", "/%", "/%2F", "/%23", "/blog/1%23", "/blog/1%3F",
    ];
    for location in samples {
        assert_eq!(resolve(location), by_hand(location), "on {:?}", location);
    }
}

#[test]
fn resolve_agrees_with_the_table_on_generated_locations() {
    let alphabet = [
        "/", "/", "/", "blog", "blog", "b", "l", "o", "g", "0", "1", "4", "2", "9", "-", "+", "%",
        "%3", "%34", "%2F", "%2D", "%ff", "?", "#", "a", " ", "é", "2147483647", "2147483648",
    ];
    let mut dice = Dice(2024);
    let mut found: usize = 0;
    for _ in 0..20000 {
        let mut location = dice.text(&alphabet, 7);
        if dice.roll(4) != 0 {
            location.insert(0, '/');
        }
        let expected = by_hand(&location);
        assert_eq!(resolve(&location), expected, "on {:?}", location);
        if expected.is_some() {
            found += 1;
        }
    }
    assert!(found > 100, "only {} generated locations resolved", found);
}

#[test]
fn parse_agrees_with_the_standard_library_on_generated_text() {
    let alphabet = ["0", "1", "2", "3", "4", "7", "8", "9", "-", "+", "a", " ", "00", "214748364"];
    let mut dice = Dice(7);
    let mut parsed: usize = 0;
    for _ in 0..20000 {
        let text = dice.text(&alphabet, 6);
        let chars: Vec<char> = text.chars().collect();
        let expected = text.parse::<i32>().ok();
        assert_eq!(parse_i32(&chars), expected, "on {:?}", text);
        if expected.is_some() {
            parsed += 1;
        }
    }
    assert!(parsed > 1000, "only {} generated texts parsed", parsed);
}
