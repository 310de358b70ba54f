use vstd::prelude::*;
use crate::text::chars_of;

verus! {

/// One row of a directory listing, as the web file browser shows it.
#[derive(Debug, Clone)]
pub struct FileEntryInfo {
    pub name: String,
    pub path: String,
    pub is_dir: bool,
    pub is_media: bool,
    pub size_bytes: u64,
    pub has_thumbnail: bool,
}

/// A listed directory with its parent and its visible entries.
#[derive(Debug, Clone)]
pub struct DirectoryBrowseResponse {
    pub current_path: String,
    pub parent_path: Option<String>,
    pub entries: Vec<FileEntryInfo>,
}

/// Request body of a rename.
#[derive(Debug, Clone)]
pub struct RenameRequest {
    pub old_path: String,
    pub new_name: String,
}

/// Request body of a deletion.
#[derive(Debug, Clone)]
pub struct TrashRequest {
    pub target_path: String,
}

/// What the file system reports of one directory entry: its file name, full path, the
/// extension of its path as written (empty when it has none), whether it is a directory,
/// and its size.
#[derive(Debug, Clone)]
pub struct RawEntry {
    pub name: String,
    pub path: String,
    pub extension: String,
    pub is_dir: bool,
    pub size_bytes: u64,
}

/// Extensions (lower case) of the files the browser offers to play.
pub const MEDIA_EXTENSIONS: [&'static str; 11] = [
    "mp4", "mkv", "avi", "webm", "mov", "flv", "mp3", "flac", "wav", "m4v", "ts",
];

/// The lower-case form of a text, as `str::to_lowercase` computes it (full Unicode case
/// mapping).
pub uninterp spec fn lowercase(s: Seq<char>) -> Seq<char>;

/// Lower-cases a text with `str::to_lowercase`; the result is `lowercase` of the input.
#[verifier::external_body]
fn to_lower(s: &str) -> (r: String)
    ensures
        r@ == lowercase(s@),
{
    s.to_lowercase()
}

/// Whether an extension, already lower-cased, is one of the media extensions.
pub open spec fn is_media_ext_spec(ext: Seq<char>) -> bool {
    exists|k: int| 0 <= k < 11 && MEDIA_EXTENSIONS@[k]@ == ext
}

/// Whether two texts are the same.
fn same_text(a: &str, b: &str) -> (r: bool)
    ensures
        r == (a@ == b@),
{
    let x = chars_of(a);
    let y = chars_of(b);
    if x.len() != y.len() {
        return false;
    }
    let mut i: usize = 0;
    while i < x.len()
        invariant
            i <= x.len(),
            x@ == a@,
            y@ == b@,
            x@.len() == y@.len(),
            forall|j: int| 0 <= j < i ==> x@[j] == y@[j],
        decreases x.len() - i,
    {
        if x[i] != y[i] {
            return false;
        }
        i = i + 1;
    }
    assert(x@ =~= y@);
    true
}

/// Whether a lower-cased extension is a media extension.
pub fn is_media_extension(ext: &str) -> (r: bool)
    ensures
        r == is_media_ext_spec(ext@),
{
    let mut k: usize = 0;
    while k < 11
        invariant
            k <= 11,
            forall|j: int| 0 <= j < k ==> MEDIA_EXTENSIONS@[j]@ != ext@,
        decreases 11 - k,
    {
        if same_text(MEDIA_EXTENSIONS[k], ext) {
            return true;
        }
        k = k + 1;
    }
    false
}

/// Names that start with a dot are hidden.
pub open spec fn is_hidden(name: Seq<char>) -> bool {
    name.len() > 0 && name[0] == '.'
}

/// The listing row of a raw entry: a file (not a directory) is media when its lower-cased
/// extension is a media extension, and only media files get a thumbnail.
pub open spec fn entry_info_spec(r: RawEntry) -> FileEntryInfo {
    let media = !r.is_dir && is_media_ext_spec(lowercase(r.extension@));
    FileEntryInfo {
        name: r.name,
        path: r.path,
        is_dir: r.is_dir,
        is_media: media,
        size_bytes: r.size_bytes,
        has_thumbnail: media,
    }
}

/// The rows of the entries that are not hidden, in the order given.
pub open spec fn visible_entries(raw: Seq<RawEntry>) -> Seq<FileEntryInfo>
    decreases raw.len(),
{
    if raw.len() == 0 {
        Seq::empty()
    } else {
        let rest = visible_entries(raw.drop_last());
        if is_hidden(raw.last().name@) {
            rest
        } else {
            rest.push(entry_info_spec(raw.last()))
        }
    }
}

/// `a` comes strictly before `b` in code-point order.
pub open spec fn chars_lt(a: Seq<char>, b: Seq<char>) -> bool
    decreases a.len(),
{
    if b.len() == 0 {
        false
    } else if a.len() == 0 {
        true
    } else if a[0] != b[0] {
        (a[0] as int) < (b[0] as int)
    } else {
        chars_lt(a.drop_first(), b.drop_first())
    }
}

/// Listing order: `y` must come after `x` when `y` is a file and `x` a directory, or when
/// both are of the same kind and `y`'s lower-cased name is greater than `x`'s.
pub open spec fn goes_after(y: FileEntryInfo, x: FileEntryInfo) -> bool {
    (!y.is_dir && x.is_dir) || (y.is_dir == x.is_dir && chars_lt(lowercase(x.name@), lowercase(y.name@)))
}

/// Inserts `x` into a listing behind every row that need not come after it.
pub open spec fn insert_stable(s: Seq<FileEntryInfo>, x: FileEntryInfo) -> Seq<FileEntryInfo>
    decreases s.len(),
{
    if s.len() == 0 {
        seq![x]
    } else if !goes_after(s.last(), x) {
        s.push(x)
    } else {
        insert_stable(s.drop_last(), x).push(s.last())
    }
}

/// The rows in listing order: directories first, then by lower-cased name; rows that
/// compare equal keep their order (a stable sort).
pub open spec fn sorted_listing(s: Seq<FileEntryInfo>) -> Seq<FileEntryInfo>
    decreases s.len(),
{
    if s.len() == 0 {
        Seq::empty()
    } else {
        insert_stable(sorted_listing(s.drop_last()), s.last())
    }
}

proof fn lemma_chars_lt_skip(a: Seq<char>, b: Seq<char>, i: int)
    requires
        0 <= i < a.len(),
        i < b.len(),
        a.subrange(0, i) == b.subrange(0, i),
        a[i] == b[i],
    ensures
        chars_lt(a.skip(i), b.skip(i)) == chars_lt(a.skip(i + 1), b.skip(i + 1)),
{
    assert(a.skip(i)[0] == a[i]);
    assert(b.skip(i)[0] == b[i]);
    assert(a.skip(i).drop_first() =~= a.skip(i + 1));
    assert(b.skip(i).drop_first() =~= b.skip(i + 1));
}

/// Code-point order of two texts.
fn text_lt(a: &str, b: &str) -> (r: bool)
    ensures
        r == chars_lt(a@, b@),
{
    let x = chars_of(a);
    let y = chars_of(b);
    let mut i: usize = 0;
    assert(x@.skip(0) =~= x@);
    assert(y@.skip(0) =~= y@);
    while i < x.len() && i < y.len() && x[i] == y[i]
        invariant
            i <= x.len(),
            i <= y.len(),
            chars_lt(x@, y@) == chars_lt(x@.skip(i as int), y@.skip(i as int)),
            x@.subrange(0, i as int) =~= y@.subrange(0, i as int),
        decreases x.len() - i,
    {
        proof {
            lemma_chars_lt_skip(x@, y@, i as int);
            assert(x@.subrange(0, i + 1) =~= x@.subrange(0, i as int).push(x@[i as int]));
            assert(y@.subrange(0, i + 1) =~= y@.subrange(0, i as int).push(y@[i as int]));
        }
        i = i + 1;
    }
    if i == y.len() {
        assert(y@.skip(i as int).len() == 0);
        false
    } else if i == x.len() {
        assert(x@.skip(i as int).len() == 0);
        true
    } else {
        assert(x@.skip(i as int)[0] == x@[i as int]);
        assert(y@.skip(i as int)[0] == y@[i as int]);
        x[i] < y[i]
    }
}

/// Whether row `y` must come after row `x`.
fn entry_goes_after(y: &FileEntryInfo, x: &FileEntryInfo) -> (r: bool)
    ensures
        r == goes_after(*y, *x),
{
    if !y.is_dir && x.is_dir {
        return true;
    }
    if y.is_dir != x.is_dir {
        return false;
    }
    let lx = to_lower(x.name.as_str());
    let ly = to_lower(y.name.as_str());
    text_lt(lx.as_str(), ly.as_str())
}

/// Inserts a row into a sorted listing (see `insert_stable`).
fn insert_entry(out: &mut Vec<FileEntryInfo>, x: FileEntryInfo)
    ensures
        final(out)@ == insert_stable(old(out)@, x),
{
    let ghost s = out@;
    let mut p: usize = out.len();
    assert(s.take(p as int) =~= s);
    assert(s.skip(p as int) =~= Seq::<FileEntryInfo>::empty());
    while p > 0 && entry_goes_after(&out[p - 1], &x)
        invariant
            p <= out.len(),
            out@ == s,
            insert_stable(s, x) == insert_stable(s.take(p as int), x) + s.skip(p as int),
            p < s.len() ==> goes_after(s[p as int], x),
        decreases p,
    {
        proof {
            let t = s.take(p as int);
            assert(t.drop_last() =~= s.take(p - 1));
            assert(t.last() == s[p - 1]);
            assert(insert_stable(t, x) == insert_stable(s.take(p - 1), x).push(s[p - 1]));
            assert(insert_stable(s.take(p - 1), x).push(s[p - 1]) + s.skip(p as int)
                =~= insert_stable(s.take(p - 1), x) + s.skip(p - 1));
        }
        p = p - 1;
    }
    proof {
        let t = s.take(p as int);
        if p == 0 {
            assert(t =~= Seq::<FileEntryInfo>::empty());
            assert(insert_stable(t, x) == seq![x]);
        } else {
            assert(t.last() == s[p - 1]);
            assert(insert_stable(t, x) == t.push(x));
        }
        assert(insert_stable(t, x) + s.skip(p as int) =~= s.insert(p as int, x));
    }
    out.insert(p, x);
}

/// The visible rows of a directory, in listing order: hidden entries (names starting
/// with a dot) are left out, each remaining entry is classified as media or not by its
/// lower-cased extension, and the rows are sorted directories first, then by lower-cased
/// name, keeping the given order among equals.
pub fn directory_listing(raw: Vec<RawEntry>) -> (entries: Vec<FileEntryInfo>)
    ensures
        entries@ == sorted_listing(visible_entries(raw@)),
{
    let ghost orig = raw@;
    let mut raw = raw;
    let mut visible: Vec<FileEntryInfo> = Vec::new();
    let ghost mut k: int = 0;
    while raw.len() > 0
        invariant
            0 <= k <= orig.len(),
            raw@ == orig.skip(k),
            visible@ == visible_entries(orig.take(k)),
        decreases raw.len(),
    {
        let r = raw.remove(0);
        proof {
            assert(r == orig[k]);
            assert(orig.take(k + 1).drop_last() =~= orig.take(k));
            assert(orig.take(k + 1).last() == orig[k]);
        }
        let name_chars = chars_of(r.name.as_str());
        let hidden = name_chars.len() > 0 && name_chars[0] == '.';
        if !hidden {
            let ext = to_lower(r.extension.as_str());
            let media = !r.is_dir && is_media_extension(ext.as_str());
            visible.push(FileEntryInfo {
                name: r.name,
                path: r.path,
                is_dir: r.is_dir,
                is_media: media,
                size_bytes: r.size_bytes,
                has_thumbnail: media,
            });
        }
        proof {
            k = k + 1;
            assert(orig.skip(k - 1).drop_first() =~= orig.skip(k));
        }
    }
    assert(orig.take(k) =~= orig);
    let ghost vis = visible@;
    let mut sorted: Vec<FileEntryInfo> = Vec::new();
    let ghost mut m: int = 0;
    while visible.len() > 0
        invariant
            0 <= m <= vis.len(),
            visible@ == vis.skip(m),
            sorted@ == sorted_listing(vis.take(m)),
        decreases visible.len(),
    {
        let e = visible.remove(0);
        proof {
            assert(e == vis[m]);
            assert(vis.take(m + 1).drop_last() =~= vis.take(m));
            assert(vis.take(m + 1).last() == vis[m]);
        }
        insert_entry(&mut sorted, e);
        proof {
            m = m + 1;
            assert(vis.skip(m - 1).drop_first() =~= vis.skip(m));
        }
    }
    assert(vis.take(m) =~= vis);
    sorted
}

proof fn lemma_chars_lt_irreflexive(a: Seq<char>)
    ensures
        !chars_lt(a, a),
    decreases a.len(),
{
    if a.len() > 0 {
        lemma_chars_lt_irreflexive(a.drop_first());
    }
}

proof fn lemma_chars_lt_transitive(a: Seq<char>, b: Seq<char>, c: Seq<char>)
    requires
        chars_lt(a, b),
        chars_lt(b, c),
    ensures
        chars_lt(a, c),
    decreases a.len(),
{
    if a.len() > 0 && b.len() > 0 && c.len() > 0 && a[0] == b[0] && b[0] == c[0] {
        lemma_chars_lt_transitive(a.drop_first(), b.drop_first(), c.drop_first());
    }
}

proof fn lemma_chars_lt_total(a: Seq<char>, b: Seq<char>)
    ensures
        a == b || chars_lt(a, b) || chars_lt(b, a),
    decreases a.len(),
{
    if a.len() > 0 && b.len() > 0 && a[0] == b[0] {
        lemma_chars_lt_total(a.drop_first(), b.drop_first());
        if a.drop_first() == b.drop_first() {
            assert(a =~= seq![a[0]] + a.drop_first());
            assert(b =~= seq![b[0]] + b.drop_first());
        }
    } else if a.len() == 0 && b.len() == 0 {
        assert(a =~= b);
    }
}

proof fn lemma_chars_lt_asymmetric(a: Seq<char>, b: Seq<char>)
    requires
        chars_lt(a, b),
    ensures
        !chars_lt(b, a),
{
    if chars_lt(b, a) {
        lemma_chars_lt_transitive(a, b, a);
        lemma_chars_lt_irreflexive(a);
    }
}

/// Listing order is a strict weak order: no row goes after itself, the relation is
/// asymmetric, and "need not come after" is transitive.
proof fn lemma_goes_after_order(x: FileEntryInfo, y: FileEntryInfo, z: FileEntryInfo)
    ensures
        !goes_after(x, x),
        goes_after(y, x) ==> !goes_after(x, y),
        !goes_after(x, y) && !goes_after(y, z) ==> !goes_after(x, z),
{
    let lx = lowercase(x.name@);
    let ly = lowercase(y.name@);
    let lz = lowercase(z.name@);
    lemma_chars_lt_irreflexive(lx);
    if chars_lt(lx, ly) {
        lemma_chars_lt_asymmetric(lx, ly);
    }
    if chars_lt(ly, lx) {
        lemma_chars_lt_asymmetric(ly, lx);
    }
    lemma_chars_lt_total(lx, ly);
    lemma_chars_lt_total(ly, lz);
    lemma_chars_lt_total(lx, lz);
    if chars_lt(lz, ly) && chars_lt(ly, lx) {
        lemma_chars_lt_transitive(lz, ly, lx);
    }
    if chars_lt(lz, lx) && chars_lt(lx, ly) {
        lemma_chars_lt_transitive(lz, lx, ly);
    }
    if chars_lt(ly, lz) && chars_lt(lz, lx) {
        lemma_chars_lt_transitive(ly, lz, lx);
    }
    if chars_lt(lx, lz) {
        lemma_chars_lt_asymmetric(lx, lz);
    }
    if chars_lt(lz, lx) {
        lemma_chars_lt_asymmetric(lz, lx);
    }
    if chars_lt(ly, lz) {
        lemma_chars_lt_asymmetric(ly, lz);
    }
    if chars_lt(lz, ly) {
        lemma_chars_lt_asymmetric(lz, ly);
    }
}

/// No row of the listing must come after a later row.
pub open spec fn listing_ordered(s: Seq<FileEntryInfo>) -> bool {
    forall|i: int, j: int| 0 <= i < j < s.len() ==> !goes_after(#[trigger] s[i], #[trigger] s[j])
}

proof fn lemma_insert_stable(s: Seq<FileEntryInfo>, x: FileEntryInfo)
    requires
        listing_ordered(s),
    ensures
        listing_ordered(insert_stable(s, x)),
        insert_stable(s, x).to_multiset() == s.to_multiset().insert(x),
    decreases s.len(),
{
    broadcast use vstd::seq_lib::group_to_multiset_ensures;
    if s.len() == 0 {
        assert(seq![x] =~= Seq::<FileEntryInfo>::empty().push(x));
    } else if !goes_after(s.last(), x) {
        let r = s.push(x);
        assert forall|i: int, j: int| 0 <= i < j < r.len() implies !goes_after(#[trigger] r[i], #[trigger] r[j]) by {
            if j == s.len() {
                if i < s.len() - 1 {
                    lemma_goes_after_order(s[i], s.last(), x);
                    assert(!goes_after(s[i], s[s.len() - 1]));
                }
            } else {
                assert(r[i] == s[i] && r[j] == s[j]);
            }
        }
    } else {
        let t = s.drop_last();
        assert(listing_ordered(t)) by {
            assert forall|i: int, j: int| 0 <= i < j < t.len() implies !goes_after(#[trigger] t[i], #[trigger] t[j]) by {
                assert(t[i] == s[i] && t[j] == s[j]);
            }
        }
        lemma_insert_stable(t, x);
        let u = insert_stable(t, x);
        let r = u.push(s.last());
        assert(u.to_multiset() == t.to_multiset().insert(x));
        assert(s =~= t.push(s.last()));
        assert forall|i: int, j: int| 0 <= i < j < r.len() implies !goes_after(#[trigger] r[i], #[trigger] r[j]) by {
            if j == u.len() {
                // r[i] is x or an element of t, none of which must come after s.last()
                assert(u.to_multiset().count(u[i]) > 0);
                if u[i] == x {
                    lemma_goes_after_order(s.last(), x, x);
                } else {
                    assert(t.to_multiset().count(u[i]) > 0);
                    let k = choose|k: int| 0 <= k < t.len() && t[k] == u[i];
                    assert(!goes_after(s[k], s[s.len() - 1]));
                }
            } else {
                assert(r[i] == u[i] && r[j] == u[j]);
            }
        }
    }
}

/// The listing order promised by the file browser: directories come first, and within
/// each kind the rows go by lower-cased name; sorting keeps exactly the rows it was given.
pub proof fn lemma_sorted_listing(s: Seq<FileEntryInfo>)
    ensures
        listing_ordered(sorted_listing(s)),
        sorted_listing(s).to_multiset() == s.to_multiset(),
    decreases s.len(),
{
    broadcast use vstd::seq_lib::group_to_multiset_ensures;
    if s.len() > 0 {
        lemma_sorted_listing(s.drop_last());
        lemma_insert_stable(sorted_listing(s.drop_last()), s.last());
        assert(s =~= s.drop_last().push(s.last()));
    }
}

} // verus!
