//! Cache policy for the embedded frontend assets.
use vstd::prelude::*;

use crate::text::{
    chars_of, is_ascii_alnum, is_ascii_alphanumeric, last_index_of, range_eq, rfind_char,
};

verus! {

/// `Cache-Control` for assets whose file name carries a content hash.
pub const HASHED_CACHE_CONTROL: &'static str = "public, max-age=31536000, immutable";

/// `Cache-Control` for every other asset.
pub const DEFAULT_CACHE_CONTROL: &'static str = "public, max-age=300";

/// Final component of a `/`-separated path (`Path::file_name`): trailing separators and `.`
/// components are skipped; there is none when the path is empty, a root, or ends in `..`.
pub open spec fn file_name(s: Seq<char>) -> Option<Seq<char>>
    decreases s.len(),
{
    if s.len() == 0 {
        None
    } else if s.last() == '/' {
        file_name(s.drop_last())
    } else {
        let k = last_index_of(s, '/');
        let seg = s.skip(k + 1);
        if seg == seq!['.'] {
            if k < 0 {
                None
            } else {
                proof {
                    lemma_last_index_bounds(s, '/');
                }
                file_name(s.take(k + 1))
            }
        } else if seg == seq!['.', '.'] {
            None
        } else {
            Some(seg)
        }
    }
}

pub proof fn lemma_last_index_bounds(s: Seq<char>, c: char)
    ensures
        -1 <= last_index_of(s, c) < s.len(),
        last_index_of(s, c) >= 0 ==> s[last_index_of(s, c)] == c,
    decreases s.len(),
{
    if s.len() > 0 && s.last() != c {
        lemma_last_index_bounds(s.drop_last(), c);
        if last_index_of(s, c) >= 0 {
            assert(s.drop_last()[last_index_of(s, c)] == s[last_index_of(s, c)]);
        }
    }
}

/// A file name of the form `<prefix>-<hash>.<ext>` whose hash part has at least eight
/// characters, all ASCII letters or digits.
pub open spec fn is_hashed_name(f: Seq<char>) -> bool {
    let dot = last_index_of(f, '.');
    dot >= 0 && {
        let stem = f.take(dot);
        let dash = last_index_of(stem, '-');
        dash >= 0 && {
            let hash = stem.skip(dash + 1);
            hash.len() >= 8 && forall|i: int| 0 <= i < hash.len() ==> is_ascii_alnum(#[trigger] hash[i])
        }
    }
}

/// The path names a content-hashed build asset.
pub open spec fn spec_is_hashed_asset(path: Seq<char>) -> bool {
    match file_name(path) {
        Some(f) => is_hashed_name(f),
        None => false,
    }
}

/// Bounds of the file name of `v`, if it has one.
pub fn file_name_range(v: &Vec<char>) -> (r: Option<(usize, usize)>)
    ensures
        match r {
            Some((a, b)) => a <= b <= v.len() && file_name(v@) == Some(v@.subrange(a as int, b as int)),
            None => file_name(v@) is None,
        },
{
    let dot = chars_of(".");
    let dotdot = chars_of("..");
    proof {
        reveal_strlit(".");
        reveal_strlit("..");
        assert(dot@ =~= seq!['.']);
        assert(dotdot@ =~= seq!['.', '.']);
    }
    let mut end = v.len();
    proof {
        assert(v@.take(end as int) =~= v@);
    }
    loop
        invariant
            end <= v.len(),
            dot@ == seq!['.'],
            dotdot@ == seq!['.', '.'],
            file_name(v@) == file_name(v@.take(end as int)),
        decreases end,
    {
        if end == 0 {
            return None;
        }
        let ghost s = v@.take(end as int);
        if v[end - 1] == '/' {
            proof {
                assert(s.drop_last() =~= v@.take(end - 1));
            }
            end = end - 1;
        } else {
            let slash = rfind_char(v, 0, end, '/');
            proof {
                assert(v@.subrange(0, end as int) =~= s);
            }
            let start = match slash {
                Some(k) => k + 1,
                None => 0,
            };
            proof {
                assert(s.skip(last_index_of(s, '/') + 1) =~= v@.subrange(start as int, end as int));
            }
            if range_eq(v, start, end, &dot) {
                if start == 0 {
                    return None;
                }
                proof {
                    assert(s.take(start as int) =~= v@.take(start as int));
                }
                end = start;
            } else if range_eq(v, start, end, &dotdot) {
                return None;
            } else {
                return Some((start, end));
            }
        }
    }
}

/// Whether a frontend asset path names a content-hashed file.
#[verifier::loop_isolation(false)]
pub fn is_hashed_asset(path: &str) -> (r: bool)
    ensures
        r == spec_is_hashed_asset(path@),
{
    let v = chars_of(path);
    let (a, b) = match file_name_range(&v) {
        Some(range) => range,
        None => return false,
    };
    let ghost f = v@.subrange(a as int, b as int);
    let dot = match rfind_char(&v, a, b, '.') {
        Some(k) => k,
        None => return false,
    };
    proof {
        assert(f.take(dot - a) =~= v@.subrange(a as int, dot as int));
    }
    let dash = match rfind_char(&v, a, dot, '-') {
        Some(k) => k,
        None => return false,
    };
    let ghost hash = v@.subrange(dash + 1, dot as int);
    proof {
        assert(f.take(dot - a).skip(dash - a + 1) =~= hash);
    }
    if dot - (dash + 1) < 8 {
        return false;
    }
    let mut i = dash + 1;
    while i < dot
        invariant
            dash + 1 <= i <= dot <= v.len(),
            hash == v@.subrange(dash + 1, dot as int),
            forall|j: int| 0 <= j < i - (dash + 1) ==> is_ascii_alnum(hash[j]),
        decreases dot - i,
    {
        if !is_ascii_alphanumeric(v[i]) {
            proof {
                assert(!is_ascii_alnum(hash[i - (dash + 1)]));
            }
            return false;
        }
        i = i + 1;
    }
    true
}

/// The `Cache-Control` header for a frontend asset path.
pub fn cache_control_for_path(path: &str) -> (r: &'static str)
    ensures
        r@ == (if spec_is_hashed_asset(path@) {
            HASHED_CACHE_CONTROL@
        } else {
            DEFAULT_CACHE_CONTROL@
        }),
{
    if is_hashed_asset(path) {
        HASHED_CACHE_CONTROL
    } else {
        DEFAULT_CACHE_CONTROL
    }
}

/// The media type `mime_guess` gives a path: the first type known for its extension (in any
/// case), or `application/octet-stream`.
pub uninterp spec fn guessed_mime(path: Seq<char>) -> Seq<char>;

/// Calls `mime_guess::from_path(path).first_or_octet_stream()`. Claimed: the type depends
/// on the path alone (named `guessed_mime`), and a path without an extension, or with an
/// empty one, gets `application/octet-stream`, as the crate's source shows. Which type an
/// extension maps to is left to the crate's table and not stated.
#[verifier::external_body]
fn guess_mime(path: &str) -> (r: String)
    ensures
        r@ == guessed_mime(path@),
        crate::images::extension(path@) is None || crate::images::extension(path@) == Some(
            Seq::<char>::empty(),
        ) ==> r@ == "application/octet-stream"@,
{
    let mime = mime_guess::from_path(path).first_or_octet_stream();
    let text: &str = mime.as_ref();
    text.to_owned()
}

/// The path of an asset as requested: the URL path without its leading slashes.
pub open spec fn strip_leading_slashes(s: Seq<char>) -> Seq<char>
    decreases s.len(),
{
    if s.len() > 0 && s[0] == '/' {
        strip_leading_slashes(s.drop_first())
    } else {
        s
    }
}

/// Removes the leading slashes of a requested asset path (`trim_start_matches('/')`).
pub fn asset_path(uri: &str) -> (r: String)
    ensures
        r@ == strip_leading_slashes(uri@),
{
    let v = chars_of(uri);
    let mut i: usize = 0;
    proof {
        assert(v@.skip(0) =~= v@);
    }
    while i < v.len() && v[i] == '/'
        invariant
            i <= v.len(),
            v@ == uri@,
            strip_leading_slashes(uri@) == strip_leading_slashes(v@.skip(i as int)),
        decreases v.len() - i,
    {
        proof {
            assert(v@.skip(i as int).drop_first() =~= v@.skip(i + 1));
        }
        i = i + 1;
    }
    proof {
        assert(v@.subrange(i as int, v@.len() as int) =~= v@.skip(i as int));
    }
    crate::text::string_from_range(&v, i, v.len())
}

/// How an asset request is answered.
#[derive(Clone, Debug, PartialEq, Eq)]
pub enum AssetResponse {
    /// The asset itself, with its media type and cache policy.
    Asset { content_type: String, cache_control: &'static str },
    /// The single-page app's `index.html` (served as `text/html`), for a path that names no
    /// asset.
    Index { cache_control: &'static str },
    /// `404 Not Found`: neither the asset nor `index.html` is there.
    NotFound,
}

/// Answers an asset request for `path`, given whether the asset and `index.html` exist.
pub fn asset_response(path: &str, asset_found: bool, index_found: bool) -> (r: AssetResponse)
    ensures
        match r {
            AssetResponse::Asset { content_type, cache_control } => asset_found && content_type@
                == guessed_mime(path@) && cache_control@ == (if spec_is_hashed_asset(path@) {
                HASHED_CACHE_CONTROL@
            } else {
                DEFAULT_CACHE_CONTROL@
            }),
            AssetResponse::Index { cache_control } => !asset_found && index_found && cache_control@
                == (if spec_is_hashed_asset("index.html"@) {
                HASHED_CACHE_CONTROL@
            } else {
                DEFAULT_CACHE_CONTROL@
            }),
            AssetResponse::NotFound => !asset_found && !index_found,
        },
{
    if asset_found {
        AssetResponse::Asset {
            content_type: guess_mime(path),
            cache_control: cache_control_for_path(path),
        }
    } else if index_found {
        AssetResponse::Index { cache_control: cache_control_for_path("index.html") }
    } else {
        AssetResponse::NotFound
    }
}

} // verus!
