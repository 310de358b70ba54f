use vstd::prelude::*;
use crate::text::{chars_of, push_all, push_char};

verus! {

// Paths are read as on Unix: `/` separates components and a leading `/` is the root.

/// The pieces of a path text between `/` separators (at least one, possibly empty).
pub open spec fn split_at_slash(s: Seq<char>) -> Seq<Seq<char>>
    decreases s.len(),
{
    if s.len() == 0 {
        seq![Seq::<char>::empty()]
    } else {
        let p = split_at_slash(s.drop_last());
        if s.last() == '/' {
            p.push(Seq::<char>::empty())
        } else {
            p.update(p.len() - 1, p.last().push(s.last()))
        }
    }
}

/// The pieces that are path components: empty pieces (repeated or trailing separators)
/// are dropped, and so is a `.` piece that is not the first one.
pub open spec fn kept_pieces(p: Seq<Seq<char>>) -> Seq<Seq<char>>
    decreases p.len(),
{
    if p.len() == 0 {
        Seq::empty()
    } else {
        let k = kept_pieces(p.drop_last());
        let x = p.last();
        if x.len() == 0 || (x == seq!['.'] && p.len() > 1) {
            k
        } else {
            k.push(x)
        }
    }
}

/// The path starts at the root.
pub open spec fn rooted(s: Seq<char>) -> bool {
    s.len() > 0 && s[0] == '/'
}

/// What a path is made of: whether it starts at the root, and its components, as
/// `std::path::Path::components` reads a Unix path.
pub open spec fn path_key(s: Seq<char>) -> (bool, Seq<Seq<char>>) {
    (rooted(s), kept_pieces(split_at_slash(s)))
}

/// Two path texts name the same path when they have the same components (so `/a/b`,
/// `/a//b`, `/a/./b` and `/a/b/` are one path), as `PathBuf` equality decides on Unix.
pub open spec fn same_path(a: Seq<char>, b: Seq<char>) -> bool {
    path_key(a) == path_key(b)
}

/// The texts of a list of character vectors.
pub open spec fn texts(v: Seq<Vec<char>>) -> Seq<Seq<char>> {
    Seq::new(v.len(), |k: int| v[k]@)
}

proof fn lemma_split_nonempty(s: Seq<char>)
    ensures
        split_at_slash(s).len() >= 1,
    decreases s.len(),
{
    if s.len() > 0 {
        lemma_split_nonempty(s.drop_last());
    }
}

/// The components of a path text, with whether it starts at the root.
fn path_components(s: &str) -> (r: (bool, Vec<Vec<char>>))
    ensures
        (r.0, texts(r.1@)) == path_key(s@),
{
    let c = chars_of(s);
    let mut pieces: Vec<Vec<char>> = Vec::new();
    let mut cur: Vec<char> = Vec::new();
    let mut i: usize = 0;
    assert(c@.take(0) =~= Seq::<char>::empty());
    assert(texts(pieces@).push(cur@) =~= split_at_slash(c@.take(0)));
    while i < c.len()
        invariant
            i <= c.len(),
            texts(pieces@).push(cur@) == split_at_slash(c@.take(i as int)),
        decreases c.len() - i,
    {
        let ch = c[i];
        let ghost before = c@.take(i as int);
        assert(c@.take(i + 1).drop_last() =~= before);
        assert(c@.take(i + 1).last() == ch);
        proof {
            lemma_split_nonempty(before);
        }
        if ch == '/' {
            let done = cur;
            pieces.push(done);
            cur = Vec::new();
            assert(texts(pieces@).push(cur@) =~= split_at_slash(before).push(Seq::<char>::empty()));
        } else {
            let ghost p = split_at_slash(before);
            cur.push(ch);
            assert(texts(pieces@).push(cur@) =~= p.update(p.len() - 1, p.last().push(ch)));
        }
        i = i + 1;
    }
    assert(c@.take(i as int) =~= c@);
    let ghost all_texts = split_at_slash(c@);
    pieces.push(cur);
    assert(texts(pieces@) =~= all_texts);
    let mut kept: Vec<Vec<char>> = Vec::new();
    let mut k: usize = 0;
    assert(all_texts.take(0) =~= Seq::<Seq<char>>::empty());
    assert(texts(kept@) =~= Seq::<Seq<char>>::empty());
    while k < pieces.len()
        invariant
            k <= pieces.len(),
            texts(pieces@) == all_texts,
            texts(kept@) == kept_pieces(all_texts.take(k as int)),
        decreases pieces.len() - k,
    {
        assert(all_texts.take(k + 1).drop_last() =~= all_texts.take(k as int));
        assert(all_texts.take(k + 1).last() == pieces@[k as int]@);
        let piece = &pieces[k];
        let is_dot = piece.len() == 1 && piece[0] == '.';
        assert(is_dot == (piece@ == seq!['.'])) by {
            if piece@.len() == 1 && piece@[0] == '.' {
                assert(piece@ =~= seq!['.']);
            }
        }
        if !(piece.len() == 0 || (is_dot && k > 0)) {
            let ghost old_kept = texts(kept@);
            kept.push(pieces[k].clone());
            assert(texts(kept@) =~= old_kept.push(pieces@[k as int]@));
        }
        k = k + 1;
    }
    assert(all_texts.take(k as int) =~= all_texts);
    let root = c.len() > 0 && c[0] == '/';
    (root, kept)
}

/// Whether two character vectors hold the same characters.
fn same_chars(a: &Vec<char>, b: &Vec<char>) -> (r: bool)
    ensures
        r == (a@ == b@),
{
    if a.len() != b.len() {
        return false;
    }
    let mut k: usize = 0;
    while k < a.len()
        invariant
            k <= a.len(),
            a.len() == b.len(),
            forall|j: int| 0 <= j < k ==> a@[j] == b@[j],
        decreases a.len() - k,
    {
        if a[k] != b[k] {
            assert(a@[k as int] != b@[k as int]);
            return false;
        }
        k = k + 1;
    }
    assert(a@ =~= b@);
    true
}

/// Whether two path texts name the same path (see `same_path`).
pub fn is_same_path(a: &str, b: &str) -> (r: bool)
    ensures
        r == same_path(a@, b@),
{
    let (ra, ca) = path_components(a);
    let (rb, cb) = path_components(b);
    if ra != rb || ca.len() != cb.len() {
        proof {
            if ca@.len() != cb@.len() {
                assert(texts(ca@).len() != texts(cb@).len());
            }
        }
        return false;
    }
    let mut k: usize = 0;
    while k < ca.len()
        invariant
            k <= ca.len(),
            ca.len() == cb.len(),
            (ra, texts(ca@)) == path_key(a@),
            (rb, texts(cb@)) == path_key(b@),
            forall|j: int| 0 <= j < k ==> ca@[j]@ == cb@[j]@,
        decreases ca.len() - k,
    {
        if !same_chars(&ca[k], &cb[k]) {
            assert(texts(ca@)[k as int] != texts(cb@)[k as int]);
            return false;
        }
        k = k + 1;
    }
    assert(texts(ca@) =~= texts(cb@));
    true
}

/// The path text without trailing separators and trailing `.` components, which the file
/// name looks past; a lone root stays.
pub open spec fn strip_tail(s: Seq<char>) -> Seq<char>
    decreases s.len(),
{
    if s.len() >= 2 && (s.last() == '/' || (s.last() == '.' && s[s.len() - 2] == '/')) {
        strip_tail(s.drop_last())
    } else {
        s
    }
}

/// Where the last component of a text starts: just after its last `/`, or 0.
pub open spec fn last_slash_end(t: Seq<char>) -> int
    decreases t.len(),
{
    if t.len() == 0 {
        0
    } else if t.last() == '/' {
        t.len() as int
    } else {
        last_slash_end(t.drop_last())
    }
}

/// Position of the last `.` of a text.
pub open spec fn last_dot(x: Seq<char>) -> Option<int>
    decreases x.len(),
{
    if x.len() == 0 {
        None
    } else if x.last() == '.' {
        Some(x.len() - 1)
    } else {
        last_dot(x.drop_last())
    }
}

/// The file name of a path: its last component, unless that is the root, `.` or `..`.
pub open spec fn file_name(s: Seq<char>) -> Option<Seq<char>> {
    let t = strip_tail(s);
    let name = t.subrange(last_slash_end(t), t.len() as int);
    if name.len() == 0 || name == seq!['.'] || name == seq!['.', '.'] {
        None
    } else {
        Some(name)
    }
}

/// Length of the stem of a file name: up to its last `.`, or the whole name when it has no
/// `.` or its only `.` leads it.
pub open spec fn stem_len(name: Seq<char>) -> int {
    match last_dot(name) {
        Some(d) => if d > 0 {
            d
        } else {
            name.len() as int
        },
        None => name.len() as int,
    }
}

/// `PathBuf::set_extension` on a Unix path: the text is cut right after the file stem
/// (dropping the old extension and anything trailing) and `.` and the new extension are
/// added; a path without a file name stays as it is.
pub open spec fn set_extension_spec(s: Seq<char>, ext: Seq<char>) -> Seq<char> {
    match file_name(s) {
        None => s,
        Some(name) => {
            let t = strip_tail(s);
            let cut = last_slash_end(t) + stem_len(name);
            s.subrange(0, cut) + if ext.len() > 0 {
                seq!['.'] + ext
            } else {
                Seq::<char>::empty()
            }
        },
    }
}

proof fn lemma_strip_tail_prefix(s: Seq<char>)
    ensures
        strip_tail(s).len() <= s.len(),
        strip_tail(s) == s.take(strip_tail(s).len() as int),
    decreases s.len(),
{
    if s.len() >= 2 && (s.last() == '/' || (s.last() == '.' && s[s.len() - 2] == '/')) {
        lemma_strip_tail_prefix(s.drop_last());
        assert(s.drop_last().take(strip_tail(s).len() as int) =~= s.take(strip_tail(s).len() as int));
    } else {
        assert(s.take(s.len() as int) =~= s);
    }
}

proof fn lemma_last_dot_bound(x: Seq<char>)
    ensures
        match last_dot(x) {
            Some(d) => 0 <= d < x.len(),
            None => true,
        },
    decreases x.len(),
{
    if x.len() > 0 && x.last() != '.' {
        lemma_last_dot_bound(x.drop_last());
    }
}

/// Length of the stripped text (see `strip_tail`).
fn strip_len(c: &Vec<char>) -> (tl: usize)
    ensures
        tl <= c.len(),
        c@.take(tl as int) == strip_tail(c@),
{
    let mut tl: usize = c.len();
    assert(c@.take(tl as int) =~= c@);
    while tl >= 2 && (c[tl - 1] == '/' || (c[tl - 1] == '.' && c[tl - 2] == '/'))
        invariant
            tl <= c.len(),
            strip_tail(c@.take(tl as int)) == strip_tail(c@),
        decreases tl,
    {
        assert(c@.take(tl as int).drop_last() =~= c@.take(tl - 1));
        tl = tl - 1;
    }
    tl
}

/// Where the last component of the first `tl` characters starts.
fn slash_end(c: &Vec<char>, tl: usize) -> (ns: usize)
    requires
        tl <= c.len(),
    ensures
        ns <= tl,
        ns == last_slash_end(c@.take(tl as int)),
{
    let mut ns: usize = tl;
    while ns > 0 && c[ns - 1] != '/'
        invariant
            ns <= tl <= c.len(),
            last_slash_end(c@.take(tl as int)) == last_slash_end(c@.take(ns as int)),
        decreases ns,
    {
        assert(c@.take(ns as int).drop_last() =~= c@.take(ns - 1));
        ns = ns - 1;
    }
    proof {
        if ns > 0 {
            assert(c@.take(ns as int).last() == '/');
        }
    }
    ns
}

/// Position (from `from`) of the last `.` among the characters `from..to`.
fn last_dot_in(c: &Vec<char>, from: usize, to: usize) -> (r: Option<usize>)
    requires
        from <= to <= c.len(),
    ensures
        match r {
            Some(d) => last_dot(c@.subrange(from as int, to as int)) == Some(d as int),
            None => last_dot(c@.subrange(from as int, to as int)) is None,
        },
{
    let mut d: usize = to;
    while d > from && c[d - 1] != '.'
        invariant
            from <= d <= to <= c.len(),
            last_dot(c@.subrange(from as int, to as int)) == last_dot(c@.subrange(from as int, d as int)),
        decreases d,
    {
        assert(c@.subrange(from as int, d as int).drop_last() =~= c@.subrange(from as int, d - 1));
        d = d - 1;
    }
    if d > from {
        assert(c@.subrange(from as int, d as int).last() == '.');
        Some(d - 1 - from)
    } else {
        assert(c@.subrange(from as int, d as int).len() == 0);
        None
    }
}

/// The first `cut` characters as a string.
fn prefix_text(c: &Vec<char>, cut: usize) -> (r: String)
    requires
        cut <= c.len(),
    ensures
        r@ == c@.subrange(0, cut as int),
{
    let mut r = String::new();
    let mut k: usize = 0;
    while k < cut
        invariant
            k <= cut <= c.len(),
            r@ == c@.subrange(0, k as int),
        decreases cut - k,
    {
        push_char(&mut r, c[k]);
        k = k + 1;
        assert(r@ =~= c@.subrange(0, k as int));
    }
    r
}

/// `PathBuf::set_extension` on a Unix path text (see `set_extension_spec`).
pub fn with_extension(path: &str, ext: &str) -> (r: String)
    ensures
        r@ == set_extension_spec(path@, ext@),
{
    let c = chars_of(path);
    let tl = strip_len(&c);
    let ns = slash_end(&c, tl);
    let ghost t = c@.take(tl as int);
    let ghost name = t.subrange(ns as int, tl as int);
    assert(name =~= c@.subrange(ns as int, tl as int));
    let n = tl - ns;
    let is_dot = n == 1 && c[ns] == '.';
    let is_dotdot = n == 2 && c[ns] == '.' && c[ns + 1] == '.';
    assert(is_dot == (name == seq!['.'])) by {
        if n == 1 && c@[ns as int] == '.' {
            assert(name =~= seq!['.']);
        }
        if name == seq!['.'] {
            assert(name[0] == c@[ns as int]);
        }
    }
    assert(is_dotdot == (name == seq!['.', '.'])) by {
        if n == 2 && c@[ns as int] == '.' && c@[ns + 1] == '.' {
            assert(name =~= seq!['.', '.']);
        }
        if name == seq!['.', '.'] {
            assert(name[0] == c@[ns as int] && name[1] == c@[ns + 1]);
        }
    }
    if n == 0 || is_dot || is_dotdot {
        let mut r = String::new();
        push_all(&mut r, &c);
        assert(r@ =~= path@);
        return r;
    }
    let stem: usize = match last_dot_in(&c, ns, tl) {
        Some(d) => if d > 0 {
            d
        } else {
            n
        },
        None => n,
    };
    proof {
        lemma_last_dot_bound(name);
    }
    assert(stem == stem_len(name));
    let cut = ns + stem;
    let mut r = prefix_text(&c, cut);
    let ghost base = r@;
    if !ext.is_empty() {
        push_char(&mut r, '.');
        let e = chars_of(ext);
        push_all(&mut r, &e);
        assert(r@ =~= base + (seq!['.'] + ext@));
    } else {
        assert(r@ =~= base + Seq::<char>::empty());
    }
    assert(c@ == path@);
    assert(strip_tail(path@) == t);
    assert(t.len() == tl);
    assert(last_slash_end(t) == ns);
    assert(file_name(path@) == Some(name));
    assert(c@.subrange(0, cut as int) == path@.subrange(0, cut as int));
    r
}

/// The timeline sidecar of a video: the video path with the extension `4d.json`
/// (`movie.mp4` pairs with `movie.4d.json`), and the fallback tried when that file is
/// missing, the first one with the extension `json`.
pub fn sidecar_paths(video: &str) -> (r: (String, String))
    ensures
        r.0@ == set_extension_spec(video@, "4d.json"@),
        r.1@ == set_extension_spec(r.0@, "json"@),
{
    let first = with_extension(video, "4d.json");
    let second = with_extension(first.as_str(), "json");
    (first, second)
}

} // verus!
