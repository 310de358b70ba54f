pub mod fs_api;
pub mod thumbnails;

use vstd::prelude::*;
use crate::text::{chars_of, push_char};

verus! {

/// Value of an ASCII hexadecimal digit.
pub open spec fn hex_digit_value(c: char) -> Option<u8> {
    let v = c as int;
    if 48 <= v <= 57 {
        Some((v - 48) as u8)
    } else if 97 <= v <= 102 {
        Some((v - 87) as u8)
    } else if 65 <= v <= 70 {
        Some((v - 55) as u8)
    } else {
        None
    }
}

/// Base-16 reading of at most two characters, an optional leading `+` allowed
/// (as `u8::from_str_radix(.., 16)` reads them).
pub open spec fn hex_byte(h: Seq<char>) -> Option<u8> {
    let digits = if h.len() > 0 && h[0] == '+' {
        h.drop_first()
    } else {
        h
    };
    if digits.len() == 0 {
        None
    } else if digits.len() == 1 {
        hex_digit_value(digits[0])
    } else {
        match (hex_digit_value(digits[0]), hex_digit_value(digits[1])) {
            (Some(a), Some(b)) => Some((a * 16 + b) as u8),
            _ => None,
        }
    }
}

/// Percent-decoding of a URL component: `%` takes up to the next two characters as a
/// hexadecimal byte (dropped when they do not read as one) and yields that byte as a
/// character, `+` becomes a space, anything else stays.
pub open spec fn url_decode_spec(s: Seq<char>) -> Seq<char>
    decreases s.len(),
{
    if s.len() == 0 {
        Seq::empty()
    } else if s[0] == '%' {
        let k = if s.len() >= 3 {
            3
        } else {
            s.len() as int
        };
        match hex_byte(s.subrange(1, k)) {
            Some(b) => seq![b as char] + url_decode_spec(s.skip(k)),
            None => url_decode_spec(s.skip(k)),
        }
    } else if s[0] == '+' {
        seq![' '] + url_decode_spec(s.drop_first())
    } else {
        seq![s[0]] + url_decode_spec(s.drop_first())
    }
}

/// The upper-case hexadecimal digit of a value below 16.
pub open spec fn upper_hex(d: u8) -> char {
    if d < 10 {
        (48 + d) as char
    } else {
        (55 + d) as char
    }
}

proof fn lemma_upper_hex_value(d: u8)
    requires
        d < 16,
    ensures
        hex_digit_value(upper_hex(d)) == Some(d),
        upper_hex(d) != '+',
{
}

/// A percent escape decodes to exactly its byte: `%` followed by the two upper-case hex
/// digits of any byte `b` yields the single character `b` (so `%2B` is `+`, `%2F` is `/`,
/// `%20` is a space), whatever text follows it.
pub proof fn lemma_percent_escape_decodes_to_byte(b: u8, rest: Seq<char>)
    ensures
        url_decode_spec(seq!['%', upper_hex(b / 16), upper_hex(b % 16)] + rest) == seq![b as char]
            + url_decode_spec(rest),
{
    let s = seq!['%', upper_hex(b / 16), upper_hex(b % 16)] + rest;
    lemma_upper_hex_value(b / 16);
    lemma_upper_hex_value(b % 16);
    assert(s[0] == '%');
    assert(s.subrange(1, 3) =~= seq![upper_hex(b / 16), upper_hex(b % 16)]);
    assert(s.skip(3) =~= rest);
    assert(((b / 16) * 16 + b % 16) as u8 == b);
    assert(hex_byte(s.subrange(1, 3)) == Some(b));
}

/// Only a literal `+` stands for a space; any other character that is not part of an
/// escape is kept as it is.
pub proof fn lemma_plain_characters_kept(c: char, rest: Seq<char>)
    requires
        c != '%',
    ensures
        url_decode_spec(seq![c] + rest) == seq![if c == '+' { ' ' } else { c }] + url_decode_spec(rest),
{
    let s = seq![c] + rest;
    assert(s.drop_first() =~= rest);
}

fn hex_digit(c: char) -> (r: Option<u8>)
    ensures
        r == hex_digit_value(c),
{
    if c >= '0' && c <= '9' {
        Some((c as u32 - 48) as u8)
    } else if c >= 'a' && c <= 'f' {
        Some((c as u32 - 87) as u8)
    } else if c >= 'A' && c <= 'F' {
        Some((c as u32 - 55) as u8)
    } else {
        None
    }
}

fn parse_hex_byte(h: &Vec<char>) -> (r: Option<u8>)
    requires
        h@.len() <= 2,
    ensures
        r == hex_byte(h@),
{
    let start: usize = if h.len() > 0 && h[0] == '+' {
        1
    } else {
        0
    };
    let ghost digits = if h@.len() > 0 && h@[0] == '+' {
        h@.drop_first()
    } else {
        h@
    };
    assert(digits =~= h@.skip(start as int));
    if h.len() - start == 0 {
        None
    } else if h.len() - start == 1 {
        hex_digit(h[start])
    } else {
        match (hex_digit(h[start]), hex_digit(h[start + 1])) {
            (Some(a), Some(b)) => Some(a * 16 + b),
            _ => None,
        }
    }
}

/// Decodes `%XX` escapes and `+` in a URL query value.
pub fn urlencoding_decode(s: &str) -> (r: String)
    ensures
        r@ == url_decode_spec(s@),
{
    let v = chars_of(s);
    let n = v.len();
    let mut result = String::new();
    let mut i: usize = 0;
    assert(v@.skip(0) =~= v@);
    while i < n
        invariant
            i <= n,
            n == v@.len(),
            v@ == s@,
            url_decode_spec(v@) == result@ + url_decode_spec(v@.skip(i as int)),
        decreases n - i,
    {
        let ghost rest = v@.skip(i as int);
        let ghost before = result@;
        let ch = v[i];
        i = i + 1;
        if ch == '%' {
            let mut hex: Vec<char> = Vec::new();
            if i < n {
                hex.push(v[i]);
                i = i + 1;
            }
            if i < n {
                hex.push(v[i]);
                i = i + 1;
            }
            let ghost k: int = if rest.len() >= 3 {
                3
            } else {
                rest.len() as int
            };
            assert(hex@ =~= rest.subrange(1, k));
            assert(rest.skip(k) =~= v@.skip(i as int));
            if let Some(b) = parse_hex_byte(&hex) {
                push_char(&mut result, b as char);
            }
        } else if ch == '+' {
            push_char(&mut result, ' ');
            assert(rest.drop_first() =~= v@.skip(i as int));
        } else {
            push_char(&mut result, ch);
            assert(rest.drop_first() =~= v@.skip(i as int));
        }
        assert(url_decode_spec(v@) == result@ + url_decode_spec(v@.skip(i as int)));
    }
    assert(v@.skip(i as int) =~= Seq::<char>::empty());
    assert(result@ + Seq::<char>::empty() =~= result@);
    result
}

/// `p` occurs in `s` at position `i`.
pub open spec fn occurs_at(s: Seq<char>, p: Seq<char>, i: int) -> bool {
    0 <= i && i + p.len() <= s.len() && s.subrange(i, i + p.len()) == p
}

/// The first position at or after `i` where `p` occurs in `s`.
pub open spec fn find_from(s: Seq<char>, p: Seq<char>, i: int) -> Option<int>
    decreases s.len() + 1 - i,
{
    if i < 0 || i + p.len() > s.len() {
        None
    } else if occurs_at(s, p, i) {
        Some(i)
    } else {
        find_from(s, p, i + 1)
    }
}

proof fn lemma_find_from(s: Seq<char>, p: Seq<char>, i: int)
    ensures
        match find_from(s, p, i) {
            Some(j) => i <= j && occurs_at(s, p, j),
            None => true,
        },
    decreases s.len() + 1 - i,
{
    if !(i < 0 || i + p.len() > s.len()) && !occurs_at(s, p, i) {
        lemma_find_from(s, p, i + 1);
    }
}

/// `s` starts with `p`.
pub open spec fn has_prefix(s: Seq<char>, p: Seq<char>) -> bool {
    occurs_at(s, p, 0)
}

/// The raw value of the `path` parameter of a request URL: the text after the first
/// `path=` up to the next `path=` or the end.
pub open spec fn path_param(url: Seq<char>) -> Option<Seq<char>> {
    let p = "path="@;
    match find_from(url, p, 0) {
        None => None,
        Some(i) => {
            let st = i + p.len();
            match find_from(url, p, st) {
                None => Some(url.subrange(st, url.len() as int)),
                Some(j) => Some(url.subrange(st, j)),
            }
        },
    }
}

/// What the built-in web server does with a request.
#[derive(Debug, Clone, Copy, PartialEq, Eq, Structural)]
pub enum WebRoute {
    /// Lists a directory as JSON.
    BrowseDirectory,
    /// Sends a video's thumbnail image.
    Thumbnail,
    /// Renames a file (POST only).
    Rename,
    /// Deletes a file (POST only).
    Trash,
    /// Opens the remote-control channel.
    ControlSocket,
    /// Serves the web interface.
    Index,
}

/// Routing by URL prefix; renaming and deleting answer only to POST requests.
pub open spec fn route_spec(url: Seq<char>, is_post: bool) -> WebRoute {
    if has_prefix(url, "/api/fs/browse"@) {
        WebRoute::BrowseDirectory
    } else if has_prefix(url, "/api/fs/thumbnail"@) {
        WebRoute::Thumbnail
    } else if has_prefix(url, "/api/fs/rename"@) && is_post {
        WebRoute::Rename
    } else if has_prefix(url, "/api/fs/trash"@) && is_post {
        WebRoute::Trash
    } else if has_prefix(url, "/ws/control"@) {
        WebRoute::ControlSocket
    } else {
        WebRoute::Index
    }
}

/// Whether `p` occurs in `s` at `i`.
fn occurs_at_exec(s: &Vec<char>, p: &Vec<char>, i: usize) -> (r: bool)
    ensures
        r == occurs_at(s@, p@, i as int),
{
    if i > s.len() || p.len() > s.len() - i {
        return false;
    }
    let mut k: usize = 0;
    while k < p.len()
        invariant
            k <= p.len(),
            i + p.len() <= s.len(),
            forall|j: int| 0 <= j < k ==> s@[i + j] == p@[j],
        decreases p.len() - k,
    {
        if s[i + k] != p[k] {
            assert(s@.subrange(i as int, i + p@.len())[k as int] != p@[k as int]);
            return false;
        }
        k = k + 1;
    }
    assert(s@.subrange(i as int, i + p@.len()) =~= p@);
    true
}

/// The first position at or after `i` where `p` occurs in `s`.
fn find_from_exec(s: &Vec<char>, p: &Vec<char>, i: usize) -> (r: Option<usize>)
    ensures
        match r {
            Some(j) => find_from(s@, p@, i as int) == Some(j as int),
            None => find_from(s@, p@, i as int) is None,
        },
{
    let mut j: usize = i;
    while j <= s.len() && p.len() <= s.len() - j
        invariant
            i <= j,
            find_from(s@, p@, i as int) == find_from(s@, p@, j as int),
        decreases s.len() + 1 - j,
    {
        if occurs_at_exec(s, p, j) {
            return Some(j);
        }
        if j == s.len() {
            assert(find_from(s@, p@, j + 1) is None);
            return None;
        }
        j = j + 1;
    }
    None
}

/// Characters `from..to` of `v` as a string.
fn text_of(v: &Vec<char>, from: usize, to: usize) -> (t: String)
    requires
        from <= to <= v.len(),
    ensures
        t@ == v@.subrange(from as int, to as int),
{
    let mut t = String::new();
    let mut k: usize = from;
    while k < to
        invariant
            from <= k <= to,
            to <= v.len(),
            t@ == v@.subrange(from as int, k as int),
        decreases to - k,
    {
        push_char(&mut t, v[k]);
        k = k + 1;
        assert(t@ =~= v@.subrange(from as int, k as int));
    }
    t
}

/// The decoded value of the `path` parameter of a request URL, if it has one.
pub fn path_parameter(url: &str) -> (r: Option<String>)
    ensures
        match path_param(url@) {
            None => r is None,
            Some(p) => r is Some && r->0@ == url_decode_spec(p),
        },
{
    let u = chars_of(url);
    let p = chars_of("path=");
    let ulen = u.len();
    match find_from_exec(&u, &p, 0) {
        None => None,
        Some(i) => {
            proof {
                lemma_find_from(u@, p@, 0);
                assert(occurs_at(u@, p@, i as int));
                assert(i + p@.len() <= ulen);
            }
            let st = i + p.len();
            let raw = match find_from_exec(&u, &p, st) {
                None => text_of(&u, st, u.len()),
                Some(j) => {
                    proof {
                        lemma_find_from(u@, p@, st as int);
                        assert(occurs_at(u@, p@, j as int));
                    }
                    text_of(&u, st, j)
                },
            };
            Some(urlencoding_decode(raw.as_str()))
        },
    }
}

/// Decides what the web server does with a request for `url`.
pub fn route_request(url: &str, is_post: bool) -> (r: WebRoute)
    ensures
        r == route_spec(url@, is_post),
{
    let u = chars_of(url);
    if occurs_at_exec(&u, &chars_of("/api/fs/browse"), 0) {
        WebRoute::BrowseDirectory
    } else if occurs_at_exec(&u, &chars_of("/api/fs/thumbnail"), 0) {
        WebRoute::Thumbnail
    } else if occurs_at_exec(&u, &chars_of("/api/fs/rename"), 0) && is_post {
        WebRoute::Rename
    } else if occurs_at_exec(&u, &chars_of("/api/fs/trash"), 0) && is_post {
        WebRoute::Trash
    } else if occurs_at_exec(&u, &chars_of("/ws/control"), 0) {
        WebRoute::ControlSocket
    } else {
        WebRoute::Index
    }
}

} // verus!
