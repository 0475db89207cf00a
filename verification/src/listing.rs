//! The folder overview: one [`File`] per entry of a folder, with its name,
//! size, extension, creation time and the folder's path relative to the main
//! location; and the breadcrumbs that lead to the folder.

use vstd::prelude::*;
use crate::text::{owned, push_char, push_str, split_on, split_seq, join_seq, views, contains_char, replace_all, replace_seq, str_eq};
use crate::number::{decimal, push_decimal};

verus! {

/// One entry of a folder as the overview shows it.
#[derive(Debug)]
pub struct File {
    /// The entry's name.
    pub name: String,
    /// Its size as shown, or `-` for a folder.
    pub size: String,
    /// The text after the last `.` of the name, or `folder`.
    pub extension: String,
    /// Its creation time as shown, or `-`.
    pub created_at: String,
    /// The listed folder's path relative to the main location.
    pub relative_path: String,
}

/// The extension the overview shows for a file called `name`: the text
/// after its last `.`, or nothing when it has none.
pub open spec fn extension_of(name: Seq<char>) -> Seq<char> {
    if name.contains('.') {
        split_seq(name, '.').last()
    } else {
        Seq::<char>::empty()
    }
}

/// The text after the last `.` of `name` (see [`extension_of`]).
pub fn file_extension(name: &str) -> (r: String)
    ensures
        r@ == extension_of(name@),
        !r@.contains('.'),
{
    if contains_char(name, '.') {
        let mut parts = split_on(name, '.');
        proof {
            crate::text::lemma_split_nonempty(name@, '.');
            crate::text::lemma_split_join(name@, '.');
            assert(!split_seq(name@, '.')[split_seq(name@, '.').len() - 1].contains('.'));
        }
        let last = parts.len() - 1;
        assert(views(parts@)[last as int] == parts@[last as int]@);
        parts.swap_remove(last)
    } else {
        String::new()
    }
}

impl File {
    /// The entry of a sub-folder: no size, extension `folder`, no creation time.
    pub fn folder(name: String, relative_path: String) -> (f: File)
        ensures
            f.name@ == name@,
            f.size@ == "-"@,
            f.extension@ == "folder"@,
            f.created_at@ == "-"@,
            f.relative_path@ == relative_path@,
    {
        File {
            name,
            size: owned("-"),
            extension: owned("folder"),
            created_at: owned("-"),
            relative_path,
        }
    }

    /// The entry of a file, its extension taken from its name.
    pub fn document(name: String, size: String, created_at: String, relative_path: String) -> (f: File)
        ensures
            f.name@ == name@,
            f.size@ == size@,
            f.extension@ == extension_of(name@),
            f.created_at@ == created_at@,
            f.relative_path@ == relative_path@,
    {
        let extension = file_extension(name.as_str());
        File { name, size, extension, created_at, relative_path }
    }
}

/// What has to be found out about an entry of a folder before it is shown.
#[derive(Debug, Clone, Copy, PartialEq, Eq, Structural)]
pub enum EntryDetail {
    /// A sub-folder: nothing more.
    Folder,
    /// A file: its size, and its creation time when `with_creation_time`.
    Document { with_creation_time: bool },
}

/// Decides what has to be found out about an entry, given whether it is a
/// directory and the `PLATFORM` setting, if set.
pub fn entry_detail(is_dir: bool, platform: Option<&str>) -> (r: EntryDetail)
    ensures
        is_dir ==> r == EntryDetail::Folder,
        !is_dir ==> r == (EntryDetail::Document {
            with_creation_time: platform matches Some(p) && p@ != "ARM"@,
        }),
{
    if is_dir {
        EntryDetail::Folder
    } else {
        EntryDetail::Document { with_creation_time: shows_creation_time(platform) }
    }
}

/// The entry shown for `name` in a folder whose relative path is
/// `relative_path`: a sub-folder entry when `is_dir`, otherwise a file entry
/// with `size` and the creation time `created_at`, or `-` when it is not
/// shown.
pub fn describe_entry(
    name: String,
    is_dir: bool,
    size: String,
    created_at: Option<String>,
    relative_path: String,
) -> (f: File)
    ensures
        f.name@ == name@,
        f.relative_path@ == relative_path@,
        is_dir ==> f.size@ == "-"@ && f.extension@ == "folder"@ && f.created_at@ == "-"@,
        !is_dir ==> f.size@ == size@ && f.extension@ == extension_of(name@),
        !is_dir ==> f.created_at@ == match created_at {
            Some(t) => t@,
            None => "-"@,
        },
{
    if is_dir {
        File::folder(name, relative_path)
    } else {
        let created = match created_at {
            Some(t) => t,
            None => owned("-"),
        };
        File::document(name, size, created, relative_path)
    }
}

/// One kibibyte.
pub open spec fn kib() -> nat {
    1024
}

/// One mebibyte.
pub open spec fn mib() -> nat {
    1048576
}

/// One gibibyte.
pub open spec fn gib() -> nat {
    1073741824
}

/// How the size of a file is shown.
pub enum SizeDisplay {
    /// More than a gibibyte: shown in gigabytes with one decimal, which is
    /// floating-point formatting and left to the caller.
    Gigabytes,
    /// The text to show.
    Text(String),
}

/// The text shown for a size of at most a gibibyte: whole mebibytes above a
/// mebibyte, whole kibibytes above a kibibyte, bytes otherwise.
pub open spec fn size_text(size: nat) -> Seq<char> {
    if size > mib() {
        decimal(size / mib()) + " MB"@
    } else if size > kib() {
        decimal(size / kib()) + " KB"@
    } else {
        decimal(size) + " B"@
    }
}

/// How a file of `size` bytes is shown.
pub fn size_display(size: u64) -> (r: SizeDisplay)
    ensures
        size > gib() <==> r is Gigabytes,
        r matches SizeDisplay::Text(t) ==> t@ == size_text(size as nat),
{
    if size > 1073741824 {
        return SizeDisplay::Gigabytes;
    }
    let mut out = String::new();
    if size > 1048576 {
        push_decimal(&mut out, size / 1048576);
        push_str(&mut out, " MB");
    } else if size > 1024 {
        push_decimal(&mut out, size / 1024);
        push_str(&mut out, " KB");
    } else {
        push_decimal(&mut out, size);
        push_str(&mut out, " B");
    }
    assert(out@ =~= size_text(size as nat));
    SizeDisplay::Text(out)
}

/// Whether creation times are shown: only when the `PLATFORM` setting is
/// present and is not `ARM`.
pub fn shows_creation_time(platform: Option<&str>) -> (r: bool)
    ensures
        r == (platform matches Some(p) && p@ != "ARM"@),
{
    match platform {
        Some(p) => !str_eq(p, "ARM"),
        None => false,
    }
}

/// The text that `chrono` gives a UTC time `secs` seconds after the Unix
/// epoch, such as `2015-05-15 00:00:00 UTC`.
pub uninterp spec fn utc_time_text(secs: int) -> Seq<char>;

/// Calls `chrono::DateTime::from_timestamp(secs, 0)` and, when that gives a
/// time, formats it with its `Display` impl.
///
/// Claims: a text comes back exactly in the form that `utc_time_text` names;
/// and one comes back whenever `secs` is within eight trillion seconds of the
/// epoch, well inside the years that `chrono` represents (about 262 000
/// either side of year 0). Nothing is said of the text itself, nor of where
/// beyond that bound `None` begins.
#[verifier::external_body]
fn utc_text(secs: i64) -> (r: Option<String>)
    ensures
        r matches Some(t) ==> t@ == utc_time_text(secs as int),
        -8_000_000_000_000 <= secs <= 8_000_000_000_000 ==> r is Some,
{
    match chrono::DateTime::from_timestamp(secs, 0) {
        Some(t) => Some(t.to_string()),
        None => None,
    }
}

/// The creation time shown for a file created `secs` seconds after the Unix
/// epoch; `None` when `chrono` cannot represent that time.
pub fn creation_time_text(secs: i64) -> (r: Option<String>)
    ensures
        r matches Some(t) ==> t@ == utc_time_text(secs as int),
        -8_000_000_000_000 <= secs <= 8_000_000_000_000 ==> r is Some,
{
    utc_text(secs)
}

/// The path of `location` relative to the main location `main`, as the
/// overview shows it: the prefixes `main//` and `main/` taken out wherever
/// they occur, then each `//` made a single `/`.
pub open spec fn relative_path_of(location: Seq<char>, main: Seq<char>) -> Seq<char> {
    replace_seq(
        replace_seq(
            replace_seq(location, main.push('/').push('/'), Seq::<char>::empty()),
            main.push('/'),
            Seq::<char>::empty(),
        ),
        seq!['/', '/'],
        seq!['/'],
    )
}

/// The path of `location` relative to the main location (see [`relative_path_of`]).
pub fn relative_path(location: &str, main_loc: &str) -> (r: String)
    ensures
        r@ == relative_path_of(location@, main_loc@),
{
    let mut with_two = owned(main_loc);
    push_char(&mut with_two, '/');
    let with_one = with_two.clone();
    push_char(&mut with_two, '/');
    let nothing = String::new();
    let a = replace_all(location, with_two.as_str(), nothing.as_str());
    let b = replace_all(a.as_str(), with_one.as_str(), nothing.as_str());
    let mut two = String::new();
    push_char(&mut two, '/');
    push_char(&mut two, '/');
    let mut one = String::new();
    push_char(&mut one, '/');
    assert(two@ =~= seq!['/', '/']);
    assert(one@ =~= seq!['/']);
    replace_all(b.as_str(), two.as_str(), one.as_str())
}

/// The link target of breadcrumb `i`: the pieces `0` to `i`, each followed
/// by a `/`.
pub open spec fn crumb_link(parts: Seq<Seq<char>>, i: int) -> Seq<char>
    decreases i + 1,
{
    if i < 0 {
        Seq::<char>::empty()
    } else {
        crumb_link(parts, i - 1) + parts[i].push('/')
    }
}

/// The link of breadcrumb `k` is the path up to and including piece `k`,
/// joined back with `/`, and a final `/`.
proof fn lemma_crumb_link(parts: Seq<Seq<char>>, k: int)
    requires
        0 <= k < parts.len(),
    ensures
        crumb_link(parts, k) == join_seq(parts.take(k + 1), '/').push('/'),
    decreases k,
{
    if k == 0 {
        assert(parts.take(1) =~= seq![parts[0]]);
        assert(crumb_link(parts, -1) == Seq::<char>::empty());
        assert(crumb_link(parts, 0) =~= parts[0].push('/'));
    } else {
        lemma_crumb_link(parts, k - 1);
        assert(parts.take(k + 1).drop_last() =~= parts.take(k));
        assert(parts.take(k + 1).last() == parts[k]);
        let j = join_seq(parts.take(k), '/');
        assert(join_seq(parts.take(k + 1), '/') == j.push('/') + parts[k]);
        assert(crumb_link(parts, k) =~= (j.push('/') + parts[k]).push('/'));
    }
}

/// The last breadcrumb of a path links to the whole path, with a final `/`.
pub proof fn lemma_last_crumb_is_whole_path(path: Seq<char>)
    ensures
        crumb_link(split_seq(path, '/'), split_seq(path, '/').len() - 1) == path.push('/'),
{
    let parts = split_seq(path, '/');
    crate::text::lemma_split_nonempty(path, '/');
    crate::text::lemma_split_join(path, '/');
    lemma_crumb_link(parts, parts.len() - 1);
    assert(parts.take(parts.len() as int) =~= parts);
}

/// The breadcrumbs of `path`: for each piece between `/`s, the piece and the
/// link to it (see [`crumb_link`]).
pub fn breadcrumbs(path: &str) -> (r: Vec<(String, String)>)
    ensures
        r@.len() == split_seq(path@, '/').len(),
        forall|i: int| 0 <= i < r@.len() ==> {
            &&& (#[trigger] r@[i]).0@ == split_seq(path@, '/')[i]
            &&& r@[i].1@ == crumb_link(split_seq(path@, '/'), i)
        },
{
    let parts = split_on(path, '/');
    let ghost ps = split_seq(path@, '/');
    let mut out: Vec<(String, String)> = Vec::new();
    let mut link = String::new();
    let mut i: usize = 0;
    while i < parts.len()
        invariant
            i <= parts.len(),
            views(parts@) == ps,
            ps == split_seq(path@, '/'),
            out@.len() == i,
            link@ == crumb_link(ps, i - 1),
            forall|k: int| 0 <= k < i ==> {
                &&& (#[trigger] out@[k]).0@ == ps[k]
                &&& out@[k].1@ == crumb_link(ps, k)
            },
        decreases parts.len() - i,
    {
        assert(views(parts@)[i as int] == parts@[i as int]@);
        push_str(&mut link, parts[i].as_str());
        push_char(&mut link, '/');
        assert(link@ =~= crumb_link(ps, i as int));
        out.push((parts[i].clone(), link.clone()));
        i = i + 1;
    }
    out
}

/// The size text names the right unit and the whole number of that unit the
/// size holds: above a mebibyte, the number `q` before ` MB` has
/// `q` mebibytes at most the size and `q + 1` more; likewise for ` KB`
/// between a kibibyte and a mebibyte; at most a kibibyte, the size in bytes.
pub proof fn lemma_size_text_counts_whole_units(size: nat)
    ensures
        size > mib() ==> exists|q: nat|
            #![trigger decimal(q)]
            size_text(size) == decimal(q) + " MB"@ && q * mib() <= size && size < q * mib() + mib(),
        kib() < size <= mib() ==> exists|q: nat|
            #![trigger decimal(q)]
            size_text(size) == decimal(q) + " KB"@ && q * kib() <= size && size < q * kib() + kib(),
        size <= kib() ==> exists|q: nat| #![trigger decimal(q)] size_text(size) == decimal(q) + " B"@ && q == size,
{
    if size > mib() {
        let q = size / mib();
        assert(q * mib() <= size && size < q * mib() + mib()) by (nonlinear_arith)
            requires q == size / mib(), mib() == 1048576;
        assert(size_text(size) == decimal(q) + " MB"@);
    } else if size > kib() {
        let q = size / kib();
        assert(q * kib() <= size && size < q * kib() + kib()) by (nonlinear_arith)
            requires q == size / kib(), kib() == 1024;
        assert(size_text(size) == decimal(q) + " KB"@);
    } else {
        assert(size_text(size) == decimal(size) + " B"@);
    }
}

} // verus!
