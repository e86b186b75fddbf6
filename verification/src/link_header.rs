//! The `link` header of GitHub's paged responses: where the next page is.
use vstd::prelude::*;
use crate::text::{
    before, chars_of, contains, find_in, lemma_find_from_first, split_char, string_of, trim,
    trim_range,
};

verus! {

/// The bytes that a header value may hold to be read as text: visible ASCII
/// and the tab (what `HeaderValue::to_str` accepts).
pub open spec fn visible_ascii(b: u8) -> bool {
    (32 <= b && b < 127) || b == 9
}

pub open spec fn header_is_text(bytes: Seq<u8>) -> bool {
    forall|i: int| 0 <= i < bytes.len() ==> visible_ascii(#[trigger] bytes[i])
}

/// The text of a header value of visible ASCII.
pub open spec fn header_text(bytes: Seq<u8>) -> Seq<char> {
    bytes.map_values(|b: u8| b as char)
}

/// The marker of the link to the next page.
pub open spec fn next_marker() -> Seq<char> {
    "rel=\"next\""@
}

/// The first of `links` that is marked as the link to the next page.
pub open spec fn first_next_link(links: Seq<Seq<char>>) -> Option<Seq<char>>
    decreases links.len(),
{
    if links.len() == 0 {
        None
    } else if contains(links[0], next_marker()) {
        Some(links[0])
    } else {
        first_next_link(links.drop_first())
    }
}

/// The URL of a link `<url>; rel="..."`: its part before the first `;`,
/// trimmed, without its first and last characters.
pub open spec fn link_target(link: Seq<char>) -> Seq<char> {
    let t = trim(before(link, ";"@));
    if t.len() >= 2 {
        t.subrange(1, t.len() - 1)
    } else {
        Seq::empty()
    }
}

/// The link to the next page that a `link` header value names, if any.
pub open spec fn next_page(header: Option<Seq<u8>>) -> Option<Seq<char>> {
    match header {
        Some(b) => match first_next_link(split_char(header_text(b), ',')) {
            Some(link) => Some(link_target(link)),
            None => None,
        },
        None => None,
    }
}

pub open spec fn header_readable(header: Option<Seq<u8>>) -> bool {
    header matches Some(b) ==> header_is_text(b)
}

/// Whether a header value can be read as text.
pub fn header_value_is_text(bytes: &[u8]) -> (r: bool)
    ensures
        r == header_is_text(bytes@),
{
    let mut i: usize = 0;
    while i < bytes.len()
        invariant
            i <= bytes@.len(),
            forall|j: int| 0 <= j < i ==> visible_ascii(#[trigger] bytes@[j]),
        decreases bytes.len() - i,
    {
        let b = bytes[i];
        if !((32 <= b && b < 127) || b == 9) {
            return false;
        }
        i = i + 1;
    }
    true
}

fn text_of_header(bytes: &[u8]) -> (r: Vec<char>)
    requires
        header_is_text(bytes@),
    ensures
        r@ == header_text(bytes@),
{
    let mut r: Vec<char> = Vec::new();
    let mut i: usize = 0;
    while i < bytes.len()
        invariant
            i <= bytes@.len(),
            r@ == header_text(bytes@.take(i as int)),
        decreases bytes.len() - i,
    {
        let b = bytes[i];
        r.push(b as char);
        i = i + 1;
        assert(header_text(bytes@.take(i as int)) =~= header_text(bytes@.take(i - 1)).push(
            b as char,
        ));
    }
    assert(bytes@.take(i as int) =~= bytes@);
    r
}

/// The next page's link from the `link` header of a response, if the header
/// names one (a link marked `rel="next"`).
pub fn get_next_page_from_response_header(link_header: Option<&[u8]>) -> (r: Option<String>)
    requires
        header_readable(
            match link_header {
                Some(b) => Some(b@),
                None => None,
            },
        ),
    ensures
        r matches Some(s) ==> next_page(
            match link_header {
                Some(b) => Some(b@),
                None => None,
            },
        ) == Some(s@),
        r is None ==> next_page(
            match link_header {
                Some(b) => Some(b@),
                None => None,
            },
        ) is None,
{
    let bytes = match link_header {
        Some(b) => b,
        None => {
            return None;
        },
    };
    let cs = text_of_header(bytes);
    let n = cs.len();
    let comma = chars_of(",");
    let semicolon = chars_of(";");
    let marker = chars_of("rel=\"next\"");
    proof {
        reveal_strlit(",");
    }
    let mut pos: usize = 0;
    assert(cs@.subrange(0, n as int) =~= cs@);
    loop
        invariant
            pos <= n == cs@.len(),
            cs@ == header_text(bytes@),
            link_header == Some(bytes),
            comma@ == seq![','],
            marker@ == next_marker(),
            semicolon@ == ";"@,
            first_next_link(split_char(cs@, ',')) == first_next_link(
                split_char(cs@.subrange(pos as int, n as int), ','),
            ),
        decreases n - pos,
    {
        let ghost s = cs@.subrange(pos as int, n as int);
        let found = find_in(&cs, pos, n, &comma);
        let end = match found {
            Some(i) => i,
            None => n,
        };
        let ghost piece = cs@.subrange(pos as int, end as int);
        proof {
            lemma_find_from_first(s, seq![','], 0);
            let pieces = split_char(s, ',');
            if end < n {
                assert(s.take(end - pos) =~= piece);
                assert(s.skip(end - pos + 1) =~= cs@.subrange(end + 1, n as int));
                assert(pieces[0] == piece);
                assert(pieces.drop_first() =~= split_char(cs@.subrange(end + 1, n as int), ','));
            } else {
                assert(s =~= piece);
                assert(pieces[0] == piece);
                assert(pieces.drop_first() =~= Seq::<Seq<char>>::empty());
            }
        }
        let has_marker = find_in(&cs, pos, end, &marker);
        proof {
            let pieces = split_char(s, ',');
            assert(pieces.len() > 0);
            if has_marker is Some {
                assert(contains(piece, next_marker()));
                assert(first_next_link(pieces) == Some(piece));
            } else {
                assert(!contains(piece, next_marker()));
                assert(first_next_link(pieces) == first_next_link(pieces.drop_first()));
            }
        }
        if has_marker.is_some() {
            let cut = match find_in(&cs, pos, end, &semicolon) {
                Some(i) => i,
                None => end,
            };
            let (a, b) = trim_range(&cs, pos, cut);
            proof {
                if cut < end {
                    assert(piece.take(cut - pos) =~= cs@.subrange(pos as int, cut as int));
                } else {
                    assert(piece =~= cs@.subrange(pos as int, cut as int));
                }
                assert(before(piece, ";"@) == cs@.subrange(pos as int, cut as int));
                assert(trim(before(piece, ";"@)) == cs@.subrange(a as int, b as int));
            }
            if b - a >= 2 {
                let target = string_of(&cs, a + 1, b - 1);
                assert(cs@.subrange(a as int, b as int).subrange(1, (b - a) - 1) =~= target@);
                assert(link_target(piece) == target@);
                return Some(target);
            } else {
                let empty = String::new();
                assert(link_target(piece) =~= empty@);
                return Some(empty);
            }
        }
        match found {
            Some(i) => {
                pos = i + 1;
            },
            None => {
                proof {
                    assert(first_next_link(Seq::<Seq<char>>::empty()) is None);
                }
                return None;
            },
        }
    }
}

} // verus!
