//! Content-type handling for stored documents.
//!
//! A fetched document's content type (with any `;charset=...` parameters
//! stripped) picks the file extension under which its raw bytes are stored,
//! and the blob key is `"content/{document_id}.{extension}"`.

use vstd::prelude::*;
use vstd::string::StrSliceExecFns;
use vstd::string::StringExecFns;

verus! {

/// Index of the first `;` in `s`, or `s.len()` when there is none.
pub open spec fn first_semi(s: Seq<char>) -> int
    decreases s.len(),
{
    if s.len() == 0 {
        0
    } else if s[0] == ';' {
        0
    } else {
        1 + first_semi(s.drop_first())
    }
}

/// The bare mime type: everything before the first `;`.
pub open spec fn mime_of(s: Seq<char>) -> Seq<char> {
    s.take(first_semi(s))
}

/// The stored-file extension a content type selects; unknown types fall
/// back to a generic binary extension.
pub open spec fn extension_of(content_type: Seq<char>) -> Seq<char> {
    let mime = mime_of(content_type);
    if mime == "text/html"@ { "html"@ }
    else if mime == "application/pdf"@ { "pdf"@ }
    else if mime == "image/jpeg"@ { "jpg"@ }
    else if mime == "image/png"@ { "png"@ }
    else if mime == "image/gif"@ { "gif"@ }
    else if mime == "application/json"@ { "json"@ }
    else if mime == "text/plain"@ { "txt"@ }
    else if mime == "text/css"@ { "css"@ }
    else if mime == "text/javascript"@ || mime == "application/javascript"@ { "js"@ }
    else if mime == "application/xml"@ || mime == "text/xml"@ { "xml"@ }
    else { "bin"@ }
}

/// The blob key under which a document's raw content is stored.
pub open spec fn bucket_path_of(document_id: Seq<char>, content_type: Seq<char>) -> Seq<char> {
    "content/"@ + document_id + "."@ + extension_of(content_type)
}

proof fn lemma_first_semi_witness(s: Seq<char>, i: int)
    requires
        0 <= i <= s.len(),
        forall|j: int| 0 <= j < i ==> s[j] != ';',
        i < s.len() ==> s[i] == ';',
    ensures
        first_semi(s) == i,
    decreases i,
{
    if s.len() == 0 {
    } else if i == 0 {
    } else {
        assert(s[0] != ';');
        let t = s.drop_first();
        assert(forall|j: int| 0 <= j < i - 1 ==> t[j] == s[j + 1] && t[j] != ';');
        assert(i - 1 < t.len() ==> t[i - 1] == s[i]);
        lemma_first_semi_witness(t, i - 1);
    }
}

fn mime_prefix(content_type: &str) -> (r: String)
    ensures
        r@ == mime_of(content_type@),
{
    let n = content_type.unicode_len();
    let mut i: usize = 0;
    while i < n && content_type.get_char(i) != ';'
        invariant
            i <= n,
            n == content_type@.len(),
            forall|j: int| 0 <= j < i ==> content_type@[j] != ';',
        decreases n - i,
    {
        i = i + 1;
    }
    proof {
        lemma_first_semi_witness(content_type@, i as int);
    }
    content_type.substring_char(0, i).to_owned()
}

/// The file extension under which content of this type is stored.
pub fn get_extension_from_content_type(content_type: &str) -> (r: &'static str)
    ensures
        r@ == extension_of(content_type@),
{
    let mime = mime_prefix(content_type);
    if mime == String::from_str("text/html") { "html" }
    else if mime == String::from_str("application/pdf") { "pdf" }
    else if mime == String::from_str("image/jpeg") { "jpg" }
    else if mime == String::from_str("image/png") { "png" }
    else if mime == String::from_str("image/gif") { "gif" }
    else if mime == String::from_str("application/json") { "json" }
    else if mime == String::from_str("text/plain") { "txt" }
    else if mime == String::from_str("text/css") { "css" }
    else if mime == String::from_str("text/javascript") { "js" }
    else if mime == String::from_str("application/javascript") { "js" }
    else if mime == String::from_str("application/xml") { "xml" }
    else if mime == String::from_str("text/xml") { "xml" }
    else { "bin" }
}

/// The blob key for a document's raw content:
/// `"content/{document_id}.{extension}"`.
pub fn get_bucket_path(content_type: &str, document_id: &str) -> (r: String)
    ensures
        r@ == bucket_path_of(document_id@, content_type@),
{
    let ext = get_extension_from_content_type(content_type);
    let mut s = String::from_str("content/");
    s.append(document_id);
    s.append(".");
    s.append(ext);
    s
}

} // verus!
