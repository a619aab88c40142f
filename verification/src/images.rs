//! Image metadata for the editor: which paths may name an image, and what is reported of an
//! image once found.
use vstd::prelude::*;

use crate::frontend::{file_name, file_name_range};
use crate::ids::{uuid_string, uuid_text};
use crate::text::{
    chars_of, contains_seq, last_index_of, opt_view, push_range, push_str, rfind_char, starts_with,
    trim,
};

verus! {

/// The folder of a worktree that holds images.
pub const VIBE_IMAGES_DIR: &'static str = ".vibe-images";

/// Query of image metadata: a path relative to the worktree root, such as
/// `.vibe-images/screenshot.png`.
#[derive(Clone, Debug)]
pub struct ImageMetadataQuery {
    pub path: String,
}

/// What the editor is told of an image.
#[derive(Clone, Debug)]
pub struct ImageMetadata {
    pub exists: bool,
    pub file_name: Option<String>,
    pub path: Option<String>,
    pub size_bytes: Option<i64>,
    pub format: Option<String>,
    pub proxy_url: Option<String>,
}

/// The text in lower case, as `str::to_lowercase` gives it (Unicode's mapping).
pub uninterp spec fn lowercase_of(s: Seq<char>) -> Seq<char>;

/// Calls `str::to_lowercase`. Claimed: the result depends on the text alone (named
/// `lowercase_of`).
#[verifier::external_body]
fn to_lowercase(s: &str) -> (r: String)
    ensures
        r@ == lowercase_of(s@),
{
    s.to_lowercase()
}

/// `Path::extension` of a path: the part of its file name after the last dot, unless that
/// dot starts the name.
pub open spec fn extension(path: Seq<char>) -> Option<Seq<char>> {
    match file_name(path) {
        Some(f) => {
            let k = last_index_of(f, '.');
            if k <= 0 {
                None
            } else {
                Some(f.skip(k + 1))
            }
        },
        None => None,
    }
}

/// The image format: the extension in lower case.
pub open spec fn image_format(path: Seq<char>) -> Option<Seq<char>> {
    match extension(path) {
        Some(e) => Some(lowercase_of(e)),
        None => None,
    }
}

pub open spec fn images_prefix() -> Seq<char> {
    ".vibe-images/"@
}

/// The path inside the images folder that a workspace request names: the request must start
/// with `.vibe-images/`, hold no `..`, and name something not blank after it.
pub open spec fn workspace_image_rel(path: Seq<char>) -> Option<Seq<char>> {
    if !starts_with(path, images_prefix()) || contains_seq(path, ".."@) {
        None
    } else {
        let rel = path.skip(images_prefix().len() as int);
        if trim(rel).len() == 0 {
            None
        } else {
            Some(rel)
        }
    }
}

/// The stored file name that a task image request names: the request must start with
/// `.vibe-images/`, hold no `..`, and name something after it.
pub open spec fn task_image_file_name(path: Seq<char>) -> Option<Seq<char>> {
    if !starts_with(path, images_prefix()) || contains_seq(path, ".."@) {
        None
    } else {
        let rel = path.skip(images_prefix().len() as int);
        if rel.len() == 0 {
            None
        } else {
            Some(rel)
        }
    }
}

fn has_dot_dot(v: &Vec<char>) -> (r: bool)
    ensures
        r == contains_seq(v@, seq!['.', '.']),
{
    let mut i: usize = 0;
    while i < v.len() && i + 1 < v.len()
        invariant
            i <= v.len(),
            forall|k: int| 0 <= k < i && k + 2 <= v.len() ==> #[trigger] v@.subrange(k, k + 2) != seq!['.', '.'],
        decreases v.len() - i,
    {
        if v[i] == '.' && v[i + 1] == '.' {
            proof {
                assert(v@.subrange(i as int, i + 2) =~= seq!['.', '.']);
            }
            return true;
        }
        proof {
            assert(v@.subrange(i as int, i + 2)[0] == v@[i as int]);
            assert(v@.subrange(i as int, i + 2)[1] == v@[i + 1]);
        }
        i = i + 1;
    }
    proof {
        assert forall|k: int| 0 <= k && k + 2 <= v@.len() implies #[trigger] v@.subrange(k, k + 2) != seq![
            '.',
            '.',
        ] by {
            assert(k < i);
        }
    }
    false
}

/// Where the part after the images prefix starts, when the path starts with it and holds
/// no `..`.
fn image_rel_start(v: &Vec<char>) -> (r: Option<usize>)
    ensures
        match r {
            Some(k) => k == images_prefix().len() && starts_with(v@, images_prefix()) && !contains_seq(
                v@,
                ".."@,
            ),
            None => !starts_with(v@, images_prefix()) || contains_seq(v@, ".."@),
        },
{
    let prefix = chars_of(".vibe-images/");
    proof {
        reveal_strlit("..");
        assert(".."@ =~= seq!['.', '.']);
    }
    if prefix.len() > v.len() || !crate::text::range_eq(v, 0, prefix.len(), &prefix) {
        proof {
            if prefix.len() <= v.len() {
                assert(v@.subrange(0, prefix@.len() as int) =~= v@.take(prefix@.len() as int));
            }
        }
        return None;
    }
    proof {
        assert(v@.subrange(0, prefix@.len() as int) =~= v@.take(prefix@.len() as int));
    }
    if has_dot_dot(v) {
        return None;
    }
    Some(prefix.len())
}

/// The path inside the images folder that a workspace request names (see
/// `workspace_image_rel`).
pub fn workspace_image_path(path: &str) -> (r: Option<String>)
    ensures
        opt_view(r) == workspace_image_rel(path@),
{
    let v = chars_of(path);
    match image_rel_start(&v) {
        Some(k) => {
            let (a, b) = crate::text::trim_range(&v, k, v.len());
            proof {
                assert(v@.skip(k as int) =~= v@.subrange(k as int, v@.len() as int));
            }
            if a == b {
                None
            } else {
                Some(crate::text::string_from_range(&v, k, v.len()))
            }
        },
        None => None,
    }
}

/// The stored file name that a task image request names (see `task_image_file_name`).
pub fn task_image_path(path: &str) -> (r: Option<String>)
    ensures
        opt_view(r) == task_image_file_name(path@),
{
    let v = chars_of(path);
    match image_rel_start(&v) {
        Some(k) => {
            proof {
                assert(v@.skip(k as int) =~= v@.subrange(k as int, v@.len() as int));
            }
            if k == v.len() {
                None
            } else {
                Some(crate::text::string_from_range(&v, k, v.len()))
            }
        },
        None => None,
    }
}

/// The image format of a path (see `image_format`).
pub fn path_image_format(path: &str) -> (r: Option<String>)
    ensures
        opt_view(r) == image_format(path@),
{
    let v = chars_of(path);
    match file_name_range(&v) {
        Some((a, b)) => {
            let ghost f = v@.subrange(a as int, b as int);
            match rfind_char(&v, a, b, '.') {
                Some(k) => {
                    if k == a {
                        None
                    } else {
                        proof {
                            assert(f.skip(k - a + 1) =~= v@.subrange(k + 1, b as int));
                        }
                        let ext = crate::text::string_from_range(&v, k + 1, b);
                        Some(to_lowercase(ext.as_str()))
                    }
                },
                None => None,
            }
        },
        None => None,
    }
}

/// The file name of a path (`Path::file_name`).
pub fn path_file_name(path: &str) -> (r: Option<String>)
    ensures
        opt_view(r) == file_name(path@),
{
    let v = chars_of(path);
    match file_name_range(&v) {
        Some((a, b)) => Some(crate::text::string_from_range(&v, a, b)),
        None => None,
    }
}

/// The answer for a path that names no image: it does not exist, and only the path is told.
pub fn image_not_found(path: String) -> (r: ImageMetadata)
    ensures
        !r.exists,
        opt_view(r.path) == Some(path@),
        r.file_name is None && r.size_bytes is None && r.format is None && r.proxy_url is None,
{
    ImageMetadata {
        exists: false,
        file_name: None,
        path: Some(path),
        size_bytes: None,
        format: None,
        proxy_url: None,
    }
}

/// The proxy address of an image in a workspace.
pub open spec fn workspace_proxy_url(workspace_id: u128, rel: Seq<char>) -> Seq<char> {
    "/api/task-attempts/"@ + uuid_text(workspace_id) + "/images/file/"@ + rel
}

/// The answer for an image found in a workspace: its file name, format and size, and the
/// address it is served at.
pub fn workspace_image_found(path: String, rel: &str, workspace_id: u128, size: u64) -> (r: ImageMetadata)
    ensures
        r.exists,
        opt_view(r.file_name) == file_name(path@),
        opt_view(r.path) == Some(path@),
        r.size_bytes == Some(size as i64),
        opt_view(r.format) == image_format(path@),
        opt_view(r.proxy_url) == Some(workspace_proxy_url(workspace_id, rel@)),
{
    let file_name = path_file_name(path.as_str());
    let format = path_image_format(path.as_str());
    let mut url = String::new();
    push_str(&mut url, "/api/task-attempts/");
    let id = uuid_string(workspace_id);
    push_str(&mut url, id.as_str());
    push_str(&mut url, "/images/file/");
    push_str(&mut url, rel);
    ImageMetadata {
        exists: true,
        file_name,
        path: Some(path),
        size_bytes: Some(size as i64),
        format,
        proxy_url: Some(url),
    }
}

/// The proxy address of an uploaded image.
pub open spec fn image_proxy_url(image_id: u128) -> Seq<char> {
    "/api/images/"@ + uuid_text(image_id) + "/file"@
}

/// The answer for an image uploaded for a task: its original name, size, the format of its
/// stored file, and the address it is served at.
pub fn task_image_found(
    path: String,
    stored_file_name: &str,
    original_name: String,
    size_bytes: i64,
    image_id: u128,
) -> (r: ImageMetadata)
    ensures
        r.exists,
        opt_view(r.file_name) == Some(original_name@),
        opt_view(r.path) == Some(path@),
        r.size_bytes == Some(size_bytes),
        opt_view(r.format) == image_format(stored_file_name@),
        opt_view(r.proxy_url) == Some(image_proxy_url(image_id)),
{
    let format = path_image_format(stored_file_name);
    let mut url = String::new();
    push_str(&mut url, "/api/images/");
    let id = uuid_string(image_id);
    push_str(&mut url, id.as_str());
    push_str(&mut url, "/file");
    ImageMetadata {
        exists: true,
        file_name: Some(original_name),
        path: Some(path),
        size_bytes: Some(size_bytes),
        format,
        proxy_url: Some(url),
    }
}

/// `Cache-Control` of a served image: private, never stale.
pub const IMAGE_FILE_CACHE_CONTROL: &'static str = "private, max-age=31536000, immutable";

/// The name an uploaded image is stored under: the name the upload gave, else `image.png`.
pub fn upload_file_name(given: Option<String>) -> (r: String)
    ensures
        r@ == (match opt_view(given) {
            Some(n) => n,
            None => "image.png"@,
        }),
{
    match given {
        Some(n) => n,
        None => "image.png".to_owned(),
    }
}

/// The path by which markdown refers to a stored image: under the images directory.
pub fn image_markdown_path(file_path: &str) -> (r: String)
    ensures
        r@ == VIBE_IMAGES_DIR@ + "/"@ + file_path@,
{
    let mut out = VIBE_IMAGES_DIR.to_owned();
    crate::text::push_str(&mut out, "/");
    crate::text::push_str(&mut out, file_path);
    out
}

/// The headers of a served image file: its type (`application/octet-stream` when unknown),
/// its length, a private cache policy, and no content sniffing.
pub fn image_file_headers(mime_type: &Option<String>, content_length: u64) -> (r: Vec<(String, String)>)
    ensures
        r@.len() == 4,
        r@[0].0@ == "content-type"@ && r@[0].1@ == (match opt_view(*mime_type) {
            Some(m) => m,
            None => "application/octet-stream"@,
        }),
        r@[1].0@ == "content-length"@ && r@[1].1@ == crate::text::decimal(content_length as nat),
        r@[2].0@ == "cache-control"@ && r@[2].1@ == IMAGE_FILE_CACHE_CONTROL@,
        r@[3].0@ == "x-content-type-options"@ && r@[3].1@ == "nosniff"@,
{
    let content_type = match mime_type {
        Some(m) => m.clone(),
        None => "application/octet-stream".to_owned(),
    };
    let mut length = String::new();
    crate::text::push_decimal(&mut length, content_length);
    proof {
        assert(length@ =~= crate::text::decimal(content_length as nat));
    }
    let mut r: Vec<(String, String)> = Vec::new();
    r.push(("content-type".to_owned(), content_type));
    r.push(("content-length".to_owned(), length));
    r.push(("cache-control".to_owned(), IMAGE_FILE_CACHE_CONTROL.to_owned()));
    r.push(("x-content-type-options".to_owned(), "nosniff".to_owned()));
    r
}

} // verus!
