//! The decisions behind the web pages: which file a download or preview
//! reads and which header it is sent with, whether a new folder's name is
//! accepted and where the folder goes, and what the overview of a folder
//! needs.

use vstd::prelude::*;
use crate::text::{owned, push_char, push_str, chars_of, path_under, under, replace_all, replace_seq};
use crate::listing::{breadcrumbs, crumb_link};
use crate::text::split_seq;

verus! {

/// The MIME type that `mime_guess` guesses for a path from its extension.
pub uninterp spec fn guessed_mime(path: Seq<char>) -> Seq<char>;

/// Calls `mime_guess::from_path(path).first_or_octet_stream()` and writes the
/// type out with its `Display` impl.
///
/// Claims: the text is the one `guessed_mime` names for `path`; and for a
/// path without any `.`, which has no extension, it is
/// `application/octet-stream`, as `first_or_octet_stream` documents for an
/// empty guess. Which type an extension maps to is not stated.
#[verifier::external_body]
fn mime_of(path: &str) -> (r: String)
    ensures
        r@ == guessed_mime(path@),
        !path@.contains('.') ==> r@ == "application/octet-stream"@,
{
    mime_guess::from_path(path).first_or_octet_stream().to_string()
}

/// The `Debug` text of a string: quoted, with special characters escaped.
pub uninterp spec fn debug_text(s: Seq<char>) -> Seq<char>;

/// Formats `s` with `format!("{:?}", s)`.
///
/// Claims only that the text is the one `debug_text` names for `s`; its
/// escaping rules are not stated.
#[verifier::external_body]
fn debug_of(s: &str) -> (r: String)
    ensures
        r@ == debug_text(s@),
{
    format!("{:?}", s)
}

/// The header a shown file is sent with.
pub enum ShowHeader {
    /// `Content-Type`, for viewing in the browser.
    ContentType(String),
    /// `Content-Disposition`, for downloading.
    Disposition(String),
}

/// The `Content-Disposition` value for downloading `name`: the name in its
/// `Debug` form, itself between quotes.
pub open spec fn disposition_of(name: Seq<char>) -> Seq<char> {
    "attachment; filename=\""@ + debug_text(name) + "\""@
}

/// The header to send `file_name` with: its guessed type when it is shown,
/// an attachment disposition when it is downloaded.
pub fn show_header(file_name: &str, download: bool) -> (r: ShowHeader)
    ensures
        !download ==> (r matches ShowHeader::ContentType(t) && t@ == guessed_mime(file_name@)),
        !download && !file_name@.contains('.') ==> (r matches ShowHeader::ContentType(t) && t@
            == "application/octet-stream"@),
        download ==> (r matches ShowHeader::Disposition(t) && t@ == disposition_of(file_name@)),
{
    let content_type = mime_of(file_name);
    if download {
        let mut value = owned("attachment; filename=\"");
        let quoted = debug_of(file_name);
        push_str(&mut value, quoted.as_str());
        push_str(&mut value, "\"");
        ShowHeader::Disposition(value)
    } else {
        ShowHeader::ContentType(content_type)
    }
}

/// Whether `char::is_alphanumeric` holds of `c`: the Unicode `Alphabetic`
/// or `Numeric` property.
pub uninterp spec fn alphanumeric(c: char) -> bool;

/// Whether `c` is an ASCII letter or digit.
pub open spec fn ascii_alphanumeric(c: char) -> bool {
    ('a' <= c && c <= 'z') || ('A' <= c && c <= 'Z') || ('0' <= c && c <= '9')
}

/// Calls `char::is_alphanumeric`.
///
/// Claims that the answer is the one `alphanumeric` names for `c`, and that
/// among ASCII characters exactly the letters and digits are alphanumeric,
/// as the documentation of `is_alphabetic` and `is_numeric` gives for that
/// range. Which other characters are alphanumeric is left to Unicode and not
/// stated.
#[verifier::external_body]
fn is_alphanumeric(c: char) -> (r: bool)
    ensures
        r == alphanumeric(c),
        (c as u32) < 128 ==> (r <==> ascii_alphanumeric(c)),
{
    c.is_alphanumeric()
}

/// A folder path is accepted when, its `/`s aside, every character is
/// alphanumeric.
pub open spec fn folder_name_ok(path: Seq<char>) -> bool {
    forall|i: int| 0 <= i < path.len() ==> (#[trigger] path[i] == '/' || alphanumeric(path[i]))
}

/// Whether an accepted folder path holds, among ASCII characters, only
/// `/`, letters and digits: no `.`, space or other punctuation.
pub open spec fn ascii_safe(path: Seq<char>) -> bool {
    forall|i: int|
        0 <= i < path.len() && (#[trigger] path[i] as u32) < 128 ==> path[i] == '/' || ascii_alphanumeric(
            path[i],
        )
}

/// Whether `path` is made of `/`, ASCII letters and ASCII digits only.
pub open spec fn plain_ascii_name(path: Seq<char>) -> bool {
    forall|i: int| 0 <= i < path.len() ==> #[trigger] path[i] == '/' || ascii_alphanumeric(path[i])
}

/// Whether a new folder may be called `path` (see [`folder_name_ok`]). An
/// accepted path has no ASCII character but `/`, letters and digits, so
/// `..` and other relative steps are refused.
pub fn valid_folder_name(path: &str) -> (r: bool)
    ensures
        r == folder_name_ok(path@),
        r <==> (forall|i: int| 0 <= i < path@.len() ==> path@[i] == '/' || alphanumeric(#[trigger] path@[i])),
        r ==> ascii_safe(path@),
        plain_ascii_name(path@) ==> r,
{
    let cs = chars_of(path);
    let mut i: usize = 0;
    while i < cs.len()
        invariant
            i <= cs.len(),
            cs@ == path@,
            forall|k: int| 0 <= k < i ==> (#[trigger] cs@[k] == '/' || alphanumeric(cs@[k])),
            forall|k: int|
                0 <= k < i && (#[trigger] cs@[k] as u32) < 128 ==> cs@[k] == '/' || ascii_alphanumeric(cs@[k]),
        decreases cs.len() - i,
    {
        let c = cs[i];
        if c != '/' && !is_alphanumeric(c) {
            assert(!(path@[i as int] == '/' || alphanumeric(path@[i as int])));
            assert(!plain_ascii_name(path@)) by {
                if ascii_alphanumeric(c) {
                    assert((c as u32) < 128);
                }
                assert(!(path@[i as int] == '/' || ascii_alphanumeric(path@[i as int])));
            }
            return false;
        }
        i = i + 1;
    }
    true
}

/// Why a folder cannot be created.
#[derive(Debug, Clone, Copy, PartialEq, Eq, Structural)]
pub enum FolderError {
    /// The name holds a character other than `/` and alphanumerics.
    InvalidName,
}

impl FolderError {
    /// The message the request fails with.
    pub fn message(&self) -> (r: String)
        ensures
            r@ == "Invalid folder name"@,
    {
        owned("Invalid folder name")
    }
}

/// Where the folder `folder_path` is created under the main location, or
/// why it is refused.
pub fn new_folder_path(main_loc: &str, folder_path: &str) -> (r: Result<String, FolderError>)
    ensures
        folder_name_ok(folder_path@) ==> (r matches Ok(p) && p@ == under(main_loc@, folder_path@)),
        r is Ok ==> ascii_safe(folder_path@),
        plain_ascii_name(folder_path@) ==> (r matches Ok(p) && p@ == under(main_loc@, folder_path@)),
        !folder_name_ok(folder_path@) ==> r == Err::<String, FolderError>(FolderError::InvalidName),
{
    if !valid_folder_name(folder_path) {
        return Err(FolderError::InvalidName);
    }
    Ok(path_under(main_loc, folder_path))
}

/// What the overview of a folder needs.
pub struct Overview {
    /// The requested path with a `/` in front.
    pub full_path: String,
    /// Where that path is under the main location.
    pub location: String,
    /// The path shown as the current folder: the full path with every `//`
    /// taken out.
    pub current_path: String,
    /// The breadcrumbs of the full path.
    pub breadcrumbs: Vec<(String, String)>,
}

/// Plans the overview of `path` below the main location.
pub fn plan_overview(main_loc: &str, path: &str) -> (r: Overview)
    ensures
        r.full_path@ == seq!['/'] + path@,
        r.location@ == main_loc@ + (seq!['/'] + path@),
        r.current_path@ == replace_seq(seq!['/'] + path@, seq!['/', '/'], Seq::<char>::empty()),
        r.breadcrumbs@.len() == split_seq(seq!['/'] + path@, '/').len(),
        forall|i: int| 0 <= i < r.breadcrumbs@.len() ==> {
            &&& (#[trigger] r.breadcrumbs@[i]).0@ == split_seq(seq!['/'] + path@, '/')[i]
            &&& r.breadcrumbs@[i].1@ == crumb_link(split_seq(seq!['/'] + path@, '/'), i)
        },
{
    let mut full = String::new();
    push_char(&mut full, '/');
    push_str(&mut full, path);
    let crumbs = breadcrumbs(full.as_str());
    let mut location = owned(main_loc);
    push_str(&mut location, full.as_str());
    let mut two = String::new();
    push_char(&mut two, '/');
    push_char(&mut two, '/');
    assert(two@ =~= seq!['/', '/']);
    let nothing = String::new();
    let current = replace_all(full.as_str(), two.as_str(), nothing.as_str());
    assert(full@ =~= seq!['/'] + path@);
    Overview { full_path: full, location, current_path: current, breadcrumbs: crumbs }
}

/// A folder path is accepted exactly when each of its characters is `/` or
/// satisfies `char::is_alphanumeric`, whatever script it comes from.
pub proof fn lemma_folder_accepted_iff_alphanumeric(path: Seq<char>)
    ensures
        folder_name_ok(path) <==> (forall|i: int| 0 <= i < path.len() ==> path[i] == '/' || alphanumeric(#[trigger] path[i])),
{
}

/// A download is always sent as an attachment: for every name the header
/// value starts with `attachment; filename="`, carries the name's `Debug`
/// text right after, and ends with a closing quote.
pub proof fn lemma_download_is_attachment(name: Seq<char>)
    ensures
        disposition_of(name).subrange(0, "attachment; filename=\""@.len() as int) == "attachment; filename=\""@,
        disposition_of(name).subrange(
            "attachment; filename=\""@.len() as int,
            ("attachment; filename=\""@.len() + debug_text(name).len()) as int,
        ) == debug_text(name),
        disposition_of(name).len() == "attachment; filename=\""@.len() + debug_text(name).len() + 1,
        disposition_of(name).last() == '"',
{
    reveal_strlit("\"");
    let p = "attachment; filename=\""@;
    let d = debug_text(name);
    let q = "\""@;
    assert(disposition_of(name) == p + d + q);
    assert((p + d + q).subrange(0, p.len() as int) =~= p);
    assert((p + d + q).subrange(p.len() as int, (p.len() + d.len()) as int) =~= d);
}

} // verus!
