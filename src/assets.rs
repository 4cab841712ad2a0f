use vstd::prelude::*;

use crate::text::{chars_of, same_text, string_of};
use vstd::string::StringExecFns;

verus! {

/// The position of the last `c` in `s`.
pub open spec fn last_index_of(s: Seq<char>, c: char) -> Option<int>
    decreases s.len(),
{
    if s.len() == 0 {
        None
    } else if s.last() == c {
        Some(s.len() - 1)
    } else {
        last_index_of(s.drop_last(), c)
    }
}

/// The file that a request path names, relative to the content directory:
/// `/` and the empty path name `index.html`; a leading `/` is dropped.
pub open spec fn relative_asset_path(path: Seq<char>) -> Seq<char> {
    if path.len() == 0 || path == seq!['/'] {
        "index.html"@
    } else if path[0] == '/' {
        path.drop_first()
    } else {
        path
    }
}

/// The extension of the last component of `path`: what follows its last `.`,
/// unless that `.` begins the component.
pub open spec fn extension(path: Seq<char>) -> Option<Seq<char>> {
    let name = match last_index_of(path, '/') {
        Some(i) => path.subrange(i + 1, path.len() as int),
        None => path,
    };
    match last_index_of(name, '.') {
        Some(i) => if i > 0 {
            Some(name.subrange(i + 1, name.len() as int))
        } else {
            None
        },
        None => None,
    }
}

/// The content type served for a file with extension `ext`.
pub open spec fn mime_type_of(ext: Option<Seq<char>>) -> Seq<char> {
    match ext {
        Some(e) => if e == "html"@ {
            "text/html"@
        } else if e == "js"@ {
            "text/javascript"@
        } else if e == "css"@ {
            "text/css"@
        } else if e == "png"@ {
            "image/png"@
        } else if e == "jpg"@ || e == "jpeg"@ {
            "image/jpeg"@
        } else if e == "gif"@ {
            "image/gif"@
        } else if e == "wasm"@ {
            "application/wasm"@
        } else if e == "json"@ {
            "application/json"@
        } else {
            "application/octet-stream"@
        },
        None => "application/octet-stream"@,
    }
}

fn last_index(s: &Vec<char>, c: char) -> (r: Option<usize>)
    ensures
        match r {
            Some(i) => i < s@.len() && last_index_of(s@, c) == Some(i as int),
            None => last_index_of(s@, c) is None,
        },
{
    let mut i: usize = s.len();
    proof {
        assert(s@.subrange(0, i as int) =~= s@);
    }
    while i > 0
        invariant
            i <= s@.len(),
            last_index_of(s@, c) == last_index_of(s@.subrange(0, i as int), c),
        decreases i,
    {
        proof {
            assert(s@.subrange(0, i as int).drop_last() =~= s@.subrange(0, i - 1));
        }
        if s[i - 1] == c {
            return Some(i - 1);
        }
        i = i - 1;
    }
    None
}

fn tail(s: &Vec<char>, from: usize) -> (r: Vec<char>)
    requires
        from <= s@.len(),
    ensures
        r@ == s@.subrange(from as int, s@.len() as int),
{
    let mut r: Vec<char> = Vec::new();
    let mut i: usize = from;
    while i < s.len()
        invariant
            from <= i <= s@.len(),
            r@ == s@.subrange(from as int, i as int),
        decreases s@.len() - i,
    {
        r.push(s[i]);
        proof {
            assert(r@ =~= s@.subrange(from as int, i + 1));
        }
        i = i + 1;
    }
    r
}

/// See [`relative_asset_path`].
pub fn asset_path(path: &str) -> (r: String)
    ensures
        r@ == relative_asset_path(path@),
{
    let cs = chars_of(path);
    proof {
        reveal_strlit("/");
        assert("/"@ =~= seq!['/']);
    }
    if cs.len() == 0 || same_text(path, "/") {
        String::from_str("index.html")
    } else if cs[0] == '/' {
        let t = tail(&cs, 1);
        proof {
            assert(t@ =~= path@.drop_first());
        }
        string_of(&t)
    } else {
        string_of(&cs)
    }
}

/// See [`extension`].
pub fn file_extension(path: &str) -> (r: Option<String>)
    ensures
        match r {
            Some(e) => extension(path@) == Some(e@),
            None => extension(path@) is None,
        },
{
    let cs = chars_of(path);
    let name = match last_index(&cs, '/') {
        Some(i) => tail(&cs, i + 1),
        None => cs,
    };
    match last_index(&name, '.') {
        Some(i) => {
            if i > 0 {
                Some(string_of(&tail(&name, i + 1)))
            } else {
                None
            }
        },
        None => None,
    }
}

/// See [`mime_type_of`].
pub fn mime_type(path: &str) -> (r: &'static str)
    ensures
        r@ == mime_type_of(extension(path@)),
{
    match file_extension(path) {
        Some(e) => {
            let e = e.as_str();
            if same_text(e, "html") {
                "text/html"
            } else if same_text(e, "js") {
                "text/javascript"
            } else if same_text(e, "css") {
                "text/css"
            } else if same_text(e, "png") {
                "image/png"
            } else if same_text(e, "jpg") || same_text(e, "jpeg") {
                "image/jpeg"
            } else if same_text(e, "gif") {
                "image/gif"
            } else if same_text(e, "wasm") {
                "application/wasm"
            } else if same_text(e, "json") {
                "application/json"
            } else {
                "application/octet-stream"
            }
        },
        None => "application/octet-stream",
    }
}

/// What reading an asset from disk gave.
pub enum AssetRead {
    /// No file at that path.
    Missing,
    /// The file is there but could not be read.
    Failed,
    /// The file's bytes.
    Content(Vec<u8>),
}

/// The body of a reply to an asset request.
pub enum AssetBody {
    /// A short plain-text message.
    Message(String),
    /// The file's bytes.
    Content(Vec<u8>),
}

/// The reply to a request for a bundled asset.
pub struct AssetReply {
    pub status: u16,
    pub content_type: String,
    pub body: AssetBody,
}

/// The reply for the asset at request path `path`, given what reading it gave:
/// 404 when missing, 500 when unreadable, else 200 with the content type of
/// its extension.
pub fn asset_reply(path: &str, read: AssetRead) -> (r: AssetReply)
    ensures
        match read {
            AssetRead::Missing => r.status == 404 && r.content_type@ == "text/plain"@ && (
            match r.body {
                AssetBody::Message(m) => m@ == "File not found"@,
                _ => false,
            }),
            AssetRead::Failed => r.status == 500 && r.content_type@ == "text/plain"@ && (
            match r.body {
                AssetBody::Message(m) => m@ == "Failed to read the file"@,
                _ => false,
            }),
            AssetRead::Content(bytes) => r.status == 200 && r.content_type@ == mime_type_of(
                extension(relative_asset_path(path@)),
            ) && r.body == AssetBody::Content(bytes),
        },
{
    match read {
        AssetRead::Missing => AssetReply {
            status: 404,
            content_type: String::from_str("text/plain"),
            body: AssetBody::Message(String::from_str("File not found")),
        },
        AssetRead::Failed => AssetReply {
            status: 500,
            content_type: String::from_str("text/plain"),
            body: AssetBody::Message(String::from_str("Failed to read the file")),
        },
        AssetRead::Content(bytes) => {
            let relative = asset_path(path);
            AssetReply {
                status: 200,
                content_type: String::from_str(mime_type(relative.as_str())),
                body: AssetBody::Content(bytes),
            }
        },
    }
}

} // verus!
