//! The names under which episodes, cached files, kept files and jobs are known.
use crate::numbers::{decimal, to_decimal};
use crate::text::{
    before, end_of_last, find_str, from_chars, is_ascii_alphanumeric, is_ascii_digit, join, joined,
    last_index, position, split_words, to_chars, trim, trim_matches, trimmed, until,
    without_leading, without_trailing, words,
};
use vstd::prelude::*;
use vstd::string::*;

verus! {

/// Working directory for downloads that a browser fetches; subject to the cache TTL.
pub const DOWNLOAD_DIR: &'static str = "downloads";

/// Whether `char::is_alphanumeric` of std holds of a character beyond ASCII.
pub uninterp spec fn unicode_alphanumeric(c: char) -> bool;

/// `char::is_alphanumeric` of std: of the ASCII characters it holds of the
/// letters and digits; of the others it is a function of the character, which
/// Unicode's tables decide.
pub assume_specification[ char::is_alphanumeric ](c: char) -> (b: bool)
    ensures
        b == (is_ascii_alphanumeric(c) || (c as u32 >= 128 && unicode_alphanumeric(c))),
;

/// A letter or a digit of any script.
pub open spec fn is_alphanumeric(c: char) -> bool {
    is_ascii_alphanumeric(c) || (c as u32 >= 128 && unicode_alphanumeric(c))
}

/// How many decimal digits `s` begins with.
pub open spec fn digits_len(s: Seq<char>) -> int
    decreases s.len(),
{
    if s.len() > 0 && is_ascii_digit(s[0]) {
        1 + digits_len(s.drop_first())
    } else {
        0
    }
}

/// The decimal digits that `s` begins with.
pub open spec fn leading_digits(s: Seq<char>) -> Seq<char> {
    s.take(digits_len(s))
}

/// The digits right behind the first `/aflevering/` of a URL, if there are any.
pub open spec fn episode_id(url: Seq<char>) -> Option<Seq<char>> {
    match position(url, "/aflevering/"@) {
        Some(i) => {
            let id = leading_digits(url.skip(i + "/aflevering/"@.len()));
            if id.len() > 0 {
                Some(id)
            } else {
                None
            }
        },
        None => None,
    }
}

/// Letters and digits of ASCII stay, any other character becomes an underscore.
pub open spec fn plain_char(c: char) -> char {
    if is_ascii_alphanumeric(c) {
        c
    } else {
        '_'
    }
}

/// Stable identity of an episode: the number behind `/aflevering/`, else the
/// whole URL in letters, digits and underscores, with no underscore at its ends.
pub open spec fn key_of(url: Seq<char>) -> Seq<char> {
    match episode_id(url) {
        Some(id) => id,
        None => without_trailing(
            without_leading(url.map_values(|c: char| plain_char(c)), '_'),
            '_',
        ),
    }
}

/// Where the cached file of an episode lies.
pub open spec fn cached_file(key: Seq<char>) -> Seq<char> {
    DOWNLOAD_DIR@ + "/"@ + key + ".mp4"@
}

/// Where a file of the media library lies.
pub open spec fn library_file(dir: Seq<char>, name: Seq<char>) -> Seq<char> {
    dir + "/"@ + name
}

/// A character that a file name may keep.
pub open spec fn is_name_char(c: char) -> bool {
    is_alphanumeric(c) || c == ' ' || c == '-' || c == '_'
}

/// What a character of a title becomes in a file name.
pub open spec fn name_char(c: char) -> char {
    if is_name_char(c) {
        c
    } else {
        '_'
    }
}

/// A title up to its first `|`, in characters that a file name may keep, its
/// words one space apart.
pub open spec fn title_words(title: Seq<char>) -> Seq<char> {
    joined(
        words(trimmed(before(title, '|')).map_values(|c: char| name_char(c))),
        seq![' '],
    )
}

/// The stem of the file name that a title gives.
pub open spec fn file_stem_of(title: Seq<char>) -> Seq<char> {
    if title_words(title).len() == 0 {
        "schatkamer-video"@
    } else {
        title_words(title)
    }
}

/// `filename` up to its last dot.
pub open spec fn stem_part(filename: Seq<char>) -> Seq<char> {
    if last_index(filename, '.') < 0 {
        filename
    } else {
        filename.take(last_index(filename, '.'))
    }
}

/// `filename` from its last dot on.
pub open spec fn extension_part(filename: Seq<char>) -> Seq<char> {
    if last_index(filename, '.') < 0 {
        seq![]
    } else {
        filename.skip(last_index(filename, '.'))
    }
}

/// The `n`-th path to try for a file of the media library: the plain one first,
/// then those with ` (2)`, ` (3)` and so on before the extension.
pub open spec fn candidate(dir: Seq<char>, filename: Seq<char>, n: int) -> Seq<char> {
    if n <= 1 {
        library_file(dir, filename)
    } else {
        library_file(
            dir,
            stem_part(filename) + " ("@ + decimal(n as nat) + ")"@ + extension_part(filename),
        )
    }
}

/// How many decimal digits `v` has from position `from` on.
fn count_digits(v: &Vec<char>, from: usize) -> (n: usize)
    requires
        from <= v.len(),
    ensures
        n == digits_len(v@.skip(from as int)),
        from + n <= v.len(),
    decreases v.len() - from,
{
    if from < v.len() && '0' <= v[from] && v[from] <= '9' {
        assert(v@.skip(from as int).drop_first() =~= v@.skip(from + 1));
        1 + count_digits(v, from + 1)
    } else {
        0
    }
}

/// Stable identity of an episode: the number behind `/aflevering/`, else a
/// sanitized form of the whole URL.
pub fn episode_key(url: &str) -> (key: String)
    ensures
        key@ == key_of(url@),
{
    let v = to_chars(url);
    let p = to_chars("/aflevering/");
    match find_str(&v, &p) {
        Some(pos) => {
            assert(pos + p.len() <= v.len());
            let start: usize = pos + p.len();
            let n: usize = count_digits(&v, start);
            if n > 0 {
                let id = from_chars(&v, start, start + n);
                assert(id@ =~= leading_digits(url@.skip(start as int)));
                return id;
            }
        },
        None => {},
    }
    let mut plain = String::new();
    let mut i: usize = 0;
    let ghost mapped = url@.map_values(|c: char| plain_char(c));
    while i < v.len()
        invariant
            i <= v.len(),
            v@ == url@,
            mapped == url@.map_values(|c: char| plain_char(c)),
            plain@ == mapped.take(i as int),
        decreases v.len() - i,
    {
        let c: char = v[i];
        if ('0' <= c && c <= '9') || ('a' <= c && c <= 'z') || ('A' <= c && c <= 'Z') {
            plain.push(c);
        } else {
            plain.push('_');
        }
        assert(mapped.take(i + 1) =~= mapped.take(i as int).push(plain_char(c)));
        i = i + 1;
    }
    assert(mapped.take(i as int) =~= mapped);
    trim_matches(plain.as_str(), '_')
}

/// Where the cached file of an episode lies.
pub fn cache_path(key: &str) -> (path: String)
    ensures
        path@ == cached_file(key@),
{
    let mut path = DOWNLOAD_DIR.to_string();
    path.append("/");
    path.append(key);
    path.append(".mp4");
    path
}

/// Where a file of the media library lies.
pub fn media_path(dir: &str, name: &str) -> (path: String)
    ensures
        path@ == library_file(dir@, name@),
{
    let mut path = dir.to_string();
    path.append("/");
    path.append(name);
    path
}

/// Where the index of the media library lies.
pub fn media_index_path(dir: &str) -> (path: String)
    ensures
        path@ == dir@ + "/.beng_leecher_index.json"@,
{
    let mut path = dir.to_string();
    path.append("/.beng_leecher_index.json");
    path
}

/// The header under which a browser saves a file by the given name.
pub fn content_disposition(filename: &str) -> (header: String)
    ensures
        header@ == "attachment; filename=\""@ + filename@ + "\""@,
{
    let mut header = "attachment; filename=\"".to_string();
    header.append(filename);
    header.append("\"");
    header
}

/// Turn a page title into a safe file name stem, without the ` | De Schatkamer`
/// that pages put behind it.
pub fn sanitize(s: &str) -> (stem: String)
    ensures
        stem@ == file_stem_of(s@),
{
    let head = until(s, '|');
    let base = trim(head.as_str());
    let v = to_chars(base.as_str());
    let mut cleaned = String::new();
    let mut i: usize = 0;
    let ghost mapped = base@.map_values(|c: char| name_char(c));
    while i < v.len()
        invariant
            i <= v.len(),
            v@ == base@,
            mapped == base@.map_values(|c: char| name_char(c)),
            cleaned@ == mapped.take(i as int),
        decreases v.len() - i,
    {
        let c: char = v[i];
        if c.is_alphanumeric() || c == ' ' || c == '-' || c == '_' {
            cleaned.push(c);
        } else {
            cleaned.push('_');
        }
        assert(mapped.take(i + 1) =~= mapped.take(i as int).push(name_char(c)));
        i = i + 1;
    }
    assert(mapped.take(i as int) =~= mapped);
    let parts = split_words(cleaned.as_str());
    proof {
        reveal_strlit(" ");
    }
    assert(" "@ =~= seq![' ']);
    let stem = join(&parts, " ");
    if stem.as_str().is_empty() {
        "schatkamer-video".to_string()
    } else {
        stem
    }
}

/// The `n`-th path to try for a file of the media library.
pub fn media_candidate(dir: &str, filename: &str, n: u32) -> (path: String)
    ensures
        path@ == candidate(dir@, filename@, n as int),
{
    if n <= 1 {
        return media_path(dir, filename);
    }
    let v = to_chars(filename);
    let len: usize = v.len();
    let dot: usize = end_of_last(&v, '.');
    let cut: usize = if dot == 0 {
        len
    } else {
        dot - 1
    };
    let stem = from_chars(&v, 0, cut);
    let ext = from_chars(&v, cut, len);
    assert(stem@ =~= stem_part(filename@));
    assert(ext@ =~= extension_part(filename@));
    let mut path = dir.to_string();
    path.append("/");
    path.append(stem.as_str());
    path.append(" (");
    let k = to_decimal(n as u128);
    path.append(k.as_str());
    path.append(")");
    path.append(ext.as_str());
    assert(path@ =~= candidate(dir@, filename@, n as int));
    path
}

/// The largest number that a name in the media library gets behind it.
pub const LAST_CANDIDATE: u32 = 0x7FFF_FFFE;

/// `answer` is one that `exists_at` gives for the path.
pub open spec fn answered<F: Fn(&String) -> bool>(exists_at: F, path: Seq<char>, answer: bool) -> bool {
    exists|p: String| p@ == path && #[trigger] call_ensures(exists_at, (&p,), answer)
}

/// Build a non-colliding path in the media dir for `filename`, appending
/// " (2)", " (3)", and so on if a file with that name already exists, as `exists_at`
/// tells; `None` where all the names up to the last number are taken.
pub fn unique_media_path<F: Fn(&String) -> bool>(dir: &str, filename: &str, exists_at: F) -> (r: Option<
    String,
>)
    requires
        forall|p: String| #[trigger] call_requires(exists_at, (&p,)),
    ensures
        match r {
            Some(path) => exists|n: int|
                1 <= n <= LAST_CANDIDATE && path@ == #[trigger] candidate(dir@, filename@, n)
                    && answered(exists_at, path@, false) && forall|m: int|
                    1 <= m < n ==> answered(exists_at, #[trigger] candidate(dir@, filename@, m), true),
            None => forall|m: int|
                1 <= m <= LAST_CANDIDATE ==> answered(
                    exists_at,
                    #[trigger] candidate(dir@, filename@, m),
                    true,
                ),
        },
{
    let mut n: u32 = 1;
    loop
        invariant
            1 <= n <= LAST_CANDIDATE,
            forall|p: String| #[trigger] call_requires(exists_at, (&p,)),
            forall|m: int|
                1 <= m < n ==> answered(exists_at, #[trigger] candidate(dir@, filename@, m), true),
        decreases LAST_CANDIDATE - n,
    {
        let path = media_candidate(dir, filename, n);
        let taken: bool = exists_at(&path);
        if !taken {
            assert(answered(exists_at, path@, false));
            assert(path@ == candidate(dir@, filename@, n as int));
            return Some(path);
        }
        assert(answered(exists_at, candidate(dir@, filename@, n as int), true));
        if n == LAST_CANDIDATE {
            return None;
        }
        n = n + 1;
    }
}

/// Identifier of a job: the milliseconds since the epoch, then a running number.
pub fn new_id(millis: u128, count: u64) -> (id: String)
    ensures
        id@ == decimal(millis as nat) + decimal(count as nat),
{
    let mut id = to_decimal(millis);
    let n = to_decimal(count as u128);
    id.append(n.as_str());
    id
}

} // verus!
