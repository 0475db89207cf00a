//! Chunked uploads. The browser sends a file in numbered chunks, each as a
//! multipart form with the fields `name`, `file`, `chunk`, `originalFilename`,
//! `uploadPath` and `totalChunks`. Each chunk is kept in a temporary directory
//! under a numbered name; when the last chunk arrives, the chunks are joined
//! into the final file under the main location.
//!
//! [`UploadState`] holds what the fields of one request said so far;
//! [`UploadState::apply`] takes one field and says which file operation it
//! calls for, and [`UploadState::conclude`] decides what the request ends
//! in. The application performs the reads, writes and renames.

use vstd::prelude::*;
use crate::text::{owned, push_char, push_str, path_under, under, split_on, split_seq, views, str_eq, contains_char};
use crate::number::{decimal, push_decimal, parse_u32, parse_u32_spec};

verus! {

/// The directory that holds chunks while an upload is in progress.
pub open spec fn tmp_dir() -> Seq<char> {
    "./smbackup_tmp"@
}

/// The temporary file of chunk `i` of the upload whose files are named `base`.
pub open spec fn chunk_file(base: Seq<char>, i: u32) -> Seq<char> {
    under(tmp_dir(), base.push('_') + decimal(i as nat))
}

/// The temporary file of a chunk whose number is not known yet.
pub open spec fn pending_chunk_file(base: Seq<char>) -> Seq<char> {
    under(tmp_dir(), base + "_tmp"@)
}

/// The views of an optional string.
pub open spec fn opt_view(o: Option<String>) -> Option<Seq<char>> {
    match o {
        Some(s) => Some(s@),
        None => None,
    }
}

/// The views of an optional string slice.
pub open spec fn opt_str_view(o: Option<&str>) -> Option<Seq<char>> {
    match o {
        Some(s) => Some(s@),
        None => None,
    }
}

/// What a multipart field stands for, by its name.
#[derive(Debug, Clone, Copy, PartialEq, Eq, Structural)]
pub enum FieldKind {
    /// `name`: the name the file is to be stored under.
    Name,
    /// `file`: the bytes of one chunk.
    File,
    /// `chunk`: the number of the chunk this request carries.
    Chunk,
    /// `originalFilename`: the name of the file on the sender's side.
    OriginalFilename,
    /// `uploadPath`: the folder, under the main location, to store the file in.
    UploadPath,
    /// `totalChunks`: the number of the last chunk.
    TotalChunks,
    /// Any other field, or one without a name: ignored.
    Other,
}

/// The kind of the field called `name`.
pub open spec fn field_kind_of(name: Option<Seq<char>>) -> FieldKind {
    match name {
        Some(n) => if n == "name"@ {
            FieldKind::Name
        } else if n == "file"@ {
            FieldKind::File
        } else if n == "chunk"@ {
            FieldKind::Chunk
        } else if n == "originalFilename"@ {
            FieldKind::OriginalFilename
        } else if n == "uploadPath"@ {
            FieldKind::UploadPath
        } else if n == "totalChunks"@ {
            FieldKind::TotalChunks
        } else {
            FieldKind::Other
        },
        None => FieldKind::Other,
    }
}

/// Classifies a multipart field by its name.
pub fn field_kind(name: Option<&str>) -> (r: FieldKind)
    ensures
        r == field_kind_of(opt_str_view(name)),
{
    match name {
        None => FieldKind::Other,
        Some(n) => {
            if str_eq(n, "name") {
                FieldKind::Name
            } else if str_eq(n, "file") {
                FieldKind::File
            } else if str_eq(n, "chunk") {
                FieldKind::Chunk
            } else if str_eq(n, "originalFilename") {
                FieldKind::OriginalFilename
            } else if str_eq(n, "uploadPath") {
                FieldKind::UploadPath
            } else if str_eq(n, "totalChunks") {
                FieldKind::TotalChunks
            } else {
                FieldKind::Other
            }
        },
    }
}

/// What the fields of one upload request said so far.
pub struct UploadState {
    name_field: Option<String>,
    original_file_name: Option<String>,
    original_file_ending: Option<String>,
    data: bool,
    chunk_index: Option<u32>,
    total_chunks: Option<u32>,
    upload_path: Option<String>,
    tmp_file_name: String,
}

/// The abstract contents of an [`UploadState`].
pub struct UploadModel {
    /// The non-empty name asked for in the `name` field.
    pub name_field: Option<Seq<char>>,
    /// The `originalFilename` field.
    pub original_file_name: Option<Seq<char>>,
    /// The text after the last `.` of the last original file name that had one.
    pub original_file_ending: Option<Seq<char>>,
    /// Whether the bytes of a chunk were stored.
    pub data: bool,
    /// The number of this chunk, when `chunk` held one.
    pub chunk_index: Option<u32>,
    /// The number of the last chunk, when `totalChunks` held one.
    pub total_chunks: Option<u32>,
    /// The `uploadPath` field.
    pub upload_path: Option<Seq<char>>,
    /// The name the chunks of this request are stored under at first.
    pub tmp_file_name: Seq<char>,
}

impl View for UploadState {
    type V = UploadModel;

    closed spec fn view(&self) -> UploadModel {
        UploadModel {
            name_field: opt_view(self.name_field),
            original_file_name: opt_view(self.original_file_name),
            original_file_ending: opt_view(self.original_file_ending),
            data: self.data,
            chunk_index: self.chunk_index,
            total_chunks: self.total_chunks,
            upload_path: opt_view(self.upload_path),
            tmp_file_name: self.tmp_file_name@,
        }
    }
}

/// The file operation one field calls for.
pub enum UploadAction {
    /// Nothing to do.
    Nothing,
    /// Store the bytes of the field in a new file at this path.
    WriteChunk(String),
    /// Rename the first file to the second.
    Rename(String, String),
}

/// The abstract form of an [`UploadAction`].
pub enum ActionModel {
    /// Nothing to do.
    Nothing,
    /// Store the bytes at this path.
    WriteChunk(Seq<char>),
    /// Rename the first path to the second.
    Rename(Seq<char>, Seq<char>),
}

impl View for UploadAction {
    type V = ActionModel;

    open spec fn view(&self) -> ActionModel {
        match self {
            UploadAction::Nothing => ActionModel::Nothing,
            UploadAction::WriteChunk(p) => ActionModel::WriteChunk(p@),
            UploadAction::Rename(a, b) => ActionModel::Rename(a@, b@),
        }
    }
}

/// The state at the start of a request whose temporary files are named
/// `tmp_<n>`.
pub open spec fn initial_model(n: u64) -> UploadModel {
    UploadModel {
        name_field: None,
        original_file_name: None,
        original_file_ending: None,
        data: false,
        chunk_index: None,
        total_chunks: None,
        upload_path: None,
        tmp_file_name: "tmp_"@ + decimal(n as nat),
    }
}

/// A number read from an optional field text.
pub open spec fn parsed(text: Option<Seq<char>>) -> Option<u32> {
    match text {
        Some(t) => parse_u32_spec(t),
        None => None,
    }
}

/// Whether the field `kind` with `text` may be applied to `m`: a `chunk` field
/// that follows stored bytes must hold a number.
pub open spec fn field_allowed(m: UploadModel, kind: FieldKind, text: Option<Seq<char>>) -> bool {
    kind == FieldKind::Chunk && m.data ==> parsed(text) is Some
}

/// The state after the field `kind` with `text` (the text of a `file` field
/// does not matter).
pub open spec fn next_model(m: UploadModel, kind: FieldKind, text: Option<Seq<char>>) -> UploadModel {
    match kind {
        FieldKind::Name => match text {
            Some(t) => UploadModel {
                name_field: if t.len() == 0 {
                    None
                } else {
                    Some(t)
                },
                ..m
            },
            None => m,
        },
        FieldKind::File => UploadModel { data: true, ..m },
        FieldKind::Chunk => UploadModel { chunk_index: parsed(text), ..m },
        FieldKind::OriginalFilename => UploadModel {
            original_file_name: text,
            original_file_ending: match text {
                Some(n) => if n.contains('.') {
                    Some(split_seq(n, '.').last())
                } else {
                    m.original_file_ending
                },
                None => m.original_file_ending,
            },
            ..m
        },
        FieldKind::UploadPath => UploadModel { upload_path: text, ..m },
        FieldKind::TotalChunks => UploadModel { total_chunks: parsed(text), ..m },
        FieldKind::Other => m,
    }
}

/// The file operation the field `kind` with `text` calls for in state `m`.
pub open spec fn field_action(m: UploadModel, kind: FieldKind, text: Option<Seq<char>>) -> ActionModel {
    match kind {
        FieldKind::File => ActionModel::WriteChunk(
            match m.chunk_index {
                Some(i) => chunk_file(m.tmp_file_name, i),
                None => pending_chunk_file(m.tmp_file_name),
            },
        ),
        FieldKind::Chunk => if m.data {
            ActionModel::Rename(
                pending_chunk_file(m.tmp_file_name),
                chunk_file(m.tmp_file_name, parsed(text)->0),
            )
        } else {
            ActionModel::Nothing
        },
        _ => ActionModel::Nothing,
    }
}

/// A random number, from `rand::random`.
///
/// Nothing is stated of the value: any `u64` may come back.
#[verifier::external_body]
fn random_u64() -> u64 {
    rand::random::<u64>()
}

/// The temporary file of chunk `i` of the files named `base`.
pub fn chunk_path(base: &str, i: u32) -> (r: String)
    ensures
        r@ == chunk_file(base@, i),
{
    let mut name = owned(base);
    push_char(&mut name, '_');
    push_decimal(&mut name, i as u64);
    let dir = owned("./smbackup_tmp");
    path_under(dir.as_str(), name.as_str())
}

fn pending_chunk_path(base: &str) -> (r: String)
    ensures
        r@ == pending_chunk_file(base@),
{
    let mut name = owned(base);
    push_str(&mut name, "_tmp");
    let dir = owned("./smbackup_tmp");
    path_under(dir.as_str(), name.as_str())
}

fn clone_opt(o: &Option<String>) -> (r: Option<String>)
    ensures
        opt_view(r) == opt_view(*o),
{
    match o {
        Some(s) => Some(s.clone()),
        None => None,
    }
}

/// Why a request cannot be finished.
#[derive(Debug, Clone, Copy, PartialEq, Eq, Structural)]
pub enum UploadError {
    /// No `originalFilename` field was sent.
    MissingOriginalFilename,
    /// No `chunk` field with a number was sent.
    MissingChunkIndex,
}

impl UploadError {
    /// The message the request fails with.
    pub fn message(&self) -> (r: String)
        ensures
            *self == UploadError::MissingOriginalFilename ==> r@ == "Original file name not found"@,
            *self == UploadError::MissingChunkIndex ==> r@ == "Chunk index not found"@,
    {
        match self {
            UploadError::MissingOriginalFilename => owned("Original file name not found"),
            UploadError::MissingChunkIndex => owned("Chunk index not found"),
        }
    }
}

/// What a request ends in, once its chunk is stored under its final name.
pub enum UploadOutcome {
    /// The last chunk arrived: join chunks `0` to `last_chunk` of the files
    /// named `chunk_base`, in order, into a new file called `file_name` in the
    /// folder `folder` below the main location (see [`final_path`] and
    /// [`assembly_step`]).
    Assemble { folder: String, file_name: String, chunk_base: String, last_chunk: u32 },
    /// More chunks are to come: report how far the upload got.
    Progress { chunk: u32, total: u32 },
    /// The request said too little to go on.
    BadRequest,
}

/// The abstract form of an [`UploadOutcome`]: the folder, the file name,
/// the name the chunks are stored under and the last chunk; the chunk and
/// the total; or a bad request.
pub enum OutcomeModel {
    Assemble(Seq<char>, Seq<char>, Seq<char>, u32),
    Progress(u32, u32),
    BadRequest,
}

impl View for UploadOutcome {
    type V = OutcomeModel;

    open spec fn view(&self) -> OutcomeModel {
        match self {
            UploadOutcome::Assemble { folder, file_name, chunk_base, last_chunk } => OutcomeModel::Assemble(
                folder@,
                file_name@,
                chunk_base@,
                *last_chunk,
            ),
            UploadOutcome::Progress { chunk, total } => OutcomeModel::Progress(*chunk, *total),
            UploadOutcome::BadRequest => OutcomeModel::BadRequest,
        }
    }
}

/// How a request finishes: the chunk it stored moves from its temporary
/// name to one made of the original file name, then `outcome` follows.
pub struct UploadPlan {
    /// The temporary file the request stored its chunk in.
    pub rename_from: String,
    /// The name the chunk is kept under until the file is assembled.
    pub rename_to: String,
    /// What follows.
    pub outcome: UploadOutcome,
}

/// The name the uploaded file is stored under: the `name` field, with the
/// ending of the original file name, when it was given and differs from the
/// original file name; the original file name otherwise.
pub open spec fn stored_name(m: UploadModel) -> Seq<char> {
    if m.name_field is Some && m.name_field != m.original_file_name {
        m.name_field->0 + match m.original_file_ending {
            Some(e) => seq!['.'] + e,
            None => Seq::<char>::empty(),
        }
    } else {
        m.original_file_name->0
    }
}

/// What a request in state `m` ends in.
pub open spec fn outcome_of(m: UploadModel) -> OutcomeModel {
    if m.data && m.chunk_index is Some && m.total_chunks is Some && m.chunk_index == m.total_chunks
        && m.upload_path is Some {
        OutcomeModel::Assemble(
            m.upload_path->0,
            stored_name(m),
            m.original_file_name->0,
            m.total_chunks->0,
        )
    } else if m.data && m.chunk_index is Some && m.total_chunks is Some && m.total_chunks->0
        > m.chunk_index->0 {
        OutcomeModel::Progress(m.chunk_index->0, m.total_chunks->0)
    } else {
        OutcomeModel::BadRequest
    }
}

fn opt_eq(a: &Option<String>, b: &Option<String>) -> (r: bool)
    ensures
        r == (opt_view(*a) == opt_view(*b)),
{
    match (a, b) {
        (Some(x), Some(y)) => *x == *y,
        (None, None) => true,
        _ => false,
    }
}

impl UploadState {
    /// The state at the start of a request whose temporary files are named
    /// after `n`.
    pub fn with_number(n: u64) -> (r: UploadState)
        ensures
            r@ == initial_model(n),
    {
        let mut tmp = owned("tmp_");
        push_decimal(&mut tmp, n);
        UploadState {
            name_field: None,
            original_file_name: None,
            original_file_ending: None,
            data: false,
            chunk_index: None,
            total_chunks: None,
            upload_path: None,
            tmp_file_name: tmp,
        }
    }

    /// The state at the start of a request, its temporary files named after
    /// a random number.
    pub fn new() -> (r: UploadState)
        ensures
            exists|n: u64| r@ == initial_model(n),
    {
        let n = random_u64();
        UploadState::with_number(n)
    }

    /// Whether the bytes of a chunk were stored.
    pub fn has_data(&self) -> (r: bool)
        ensures
            r == self@.data,
    {
        self.data
    }

    /// The temporary file that is created when the request starts.
    pub fn tmp_file_path(&self) -> (r: String)
        ensures
            r@ == under(tmp_dir(), self@.tmp_file_name),
    {
        let dir = owned("./smbackup_tmp");
        path_under(dir.as_str(), self.tmp_file_name.as_str())
    }

    /// Takes in one field of the request: its kind and, for a text field, its
    /// text if it could be read. Returns the file operation it calls for.
    pub fn apply(&mut self, kind: FieldKind, text: Option<String>) -> (action: UploadAction)
        requires
            field_allowed(old(self)@, kind, opt_view(text)),
        ensures
            final(self)@ == next_model(old(self)@, kind, opt_view(text)),
            action@ == field_action(old(self)@, kind, opt_view(text)),
    {
        let ghost m = self@;
        let ghost t = opt_view(text);
        match kind {
            FieldKind::Name => {
                match text {
                    Some(s) => {
                        let cs = crate::text::chars_of(s.as_str());
                        if cs.len() == 0 {
                            self.name_field = None;
                        } else {
                            self.name_field = Some(s);
                        }
                    },
                    None => {},
                }
                assert(self@ =~= next_model(m, kind, t));
                UploadAction::Nothing
            },
            FieldKind::File => {
                let path = match self.chunk_index {
                    Some(i) => chunk_path(self.tmp_file_name.as_str(), i),
                    None => pending_chunk_path(self.tmp_file_name.as_str()),
                };
                self.data = true;
                assert(self@ =~= next_model(m, kind, t));
                UploadAction::WriteChunk(path)
            },
            FieldKind::Chunk => {
                let rewrite = self.data;
                self.chunk_index = match &text {
                    Some(s) => parse_u32(s.as_str()),
                    None => None,
                };
                assert(self@ =~= next_model(m, kind, t));
                if rewrite {
                    let idx = match self.chunk_index {
                        Some(i) => i,
                        None => 0,
                    };
                    let from = pending_chunk_path(self.tmp_file_name.as_str());
                    let to = chunk_path(self.tmp_file_name.as_str(), idx);
                    UploadAction::Rename(from, to)
                } else {
                    UploadAction::Nothing
                }
            },
            FieldKind::OriginalFilename => {
                match &text {
                    Some(n) => {
                        if contains_char(n.as_str(), '.') {
                            let mut parts = split_on(n.as_str(), '.');
                            proof {
                                crate::text::lemma_split_nonempty(n@, '.');
                            }
                            let last = parts.len() - 1;
                            assert(views(parts@)[last as int] == parts@[last as int]@);
                            self.original_file_ending = Some(parts.swap_remove(last));
                        }
                    },
                    None => {},
                }
                self.original_file_name = text;
                assert(self@ =~= next_model(m, kind, t));
                UploadAction::Nothing
            },
            FieldKind::UploadPath => {
                self.upload_path = text;
                assert(self@ =~= next_model(m, kind, t));
                UploadAction::Nothing
            },
            FieldKind::TotalChunks => {
                self.total_chunks = match &text {
                    Some(s) => parse_u32(s.as_str()),
                    None => None,
                };
                assert(self@ =~= next_model(m, kind, t));
                UploadAction::Nothing
            },
            FieldKind::Other => UploadAction::Nothing,
        }
    }

    /// Decides how the request finishes.
    pub fn conclude(&self) -> (r: Result<UploadPlan, UploadError>)
        ensures
            self@.original_file_name is None ==> r == Err::<UploadPlan, UploadError>(
                UploadError::MissingOriginalFilename,
            ),
            self@.original_file_name is Some && self@.chunk_index is None ==> r == Err::<
                UploadPlan,
                UploadError,
            >(UploadError::MissingChunkIndex),
            self@.original_file_name is Some && self@.chunk_index is Some ==> (r matches Ok(plan) && {
                &&& plan.rename_from@ == chunk_file(self@.tmp_file_name, self@.chunk_index->0)
                &&& plan.rename_to@ == chunk_file(self@.original_file_name->0, self@.chunk_index->0)
                &&& plan.outcome@ == outcome_of(self@)
            }),
    {
        let original = match &self.original_file_name {
            Some(o) => o,
            None => return Err(UploadError::MissingOriginalFilename),
        };
        let chunk = match self.chunk_index {
            Some(c) => c,
            None => return Err(UploadError::MissingChunkIndex),
        };
        let rename_from = chunk_path(self.tmp_file_name.as_str(), chunk);
        let rename_to = chunk_path(original.as_str(), chunk);
        let ghost m = self@;
        let outcome = match (self.total_chunks, &self.upload_path) {
            (Some(total), Some(path)) if self.data && chunk == total => {
                let mut file_name;
                if self.name_field.is_some() && !opt_eq(&self.name_field, &self.original_file_name) {
                    file_name = match &self.name_field {
                        Some(n) => n.clone(),
                        None => String::new(),
                    };
                    match &self.original_file_ending {
                        Some(e) => {
                            push_char(&mut file_name, '.');
                            push_str(&mut file_name, e.as_str());
                        },
                        None => {},
                    }
                    assert(file_name@ =~= stored_name(m));
                } else {
                    file_name = original.clone();
                }
                UploadOutcome::Assemble {
                    folder: path.clone(),
                    file_name,
                    chunk_base: original.clone(),
                    last_chunk: total,
                }
            },
            (Some(total), _) if self.data && total > chunk => UploadOutcome::Progress {
                chunk,
                total,
            },
            _ => UploadOutcome::BadRequest,
        };
        Ok(UploadPlan { rename_from, rename_to, outcome })
    }
}

/// Where an assembled upload is written: `file_name` in the folder `folder`,
/// whose text is appended to the main location `main` as it is.
pub open spec fn final_file(main: Seq<char>, folder: Seq<char>, file_name: Seq<char>) -> Seq<char> {
    under(main + folder, file_name)
}

/// Where an assembled upload is written (see [`final_file`]).
pub fn final_path(main_loc: &str, folder: &str, file_name: &str) -> (r: String)
    ensures
        r@ == final_file(main_loc@, folder@, file_name@),
{
    let mut dir = owned(main_loc);
    push_str(&mut dir, folder);
    path_under(dir.as_str(), file_name)
}

/// The temporary files that make up an upload whose chunks are stored under
/// `base` and whose last chunk is `last`: chunks `0` to `last`, in order.
pub open spec fn assembly_files(base: Seq<char>, last: u32) -> Seq<Seq<char>> {
    Seq::new(last as nat + 1, |i: int| chunk_file(base, i as u32))
}

/// What to do once the last chunk is in.
pub enum AssemblyStep {
    /// A file is already at the final path: it is left alone and the request
    /// is answered with a conflict.
    Conflict,
    /// Create the final file and append these chunk files to it, in order,
    /// removing each once it is copied.
    Join(Vec<String>),
}

/// Decides how an upload is assembled, given whether something is already
/// at the final path. An existing file is never overwritten; otherwise the
/// chunks `0` to `last` of `chunk_base` are joined in order.
pub fn assembly_step(final_exists: bool, chunk_base: &str, last: u32) -> (r: AssemblyStep)
    requires
        !final_exists ==> last < u32::MAX,
    ensures
        final_exists <==> r is Conflict,
        r matches AssemblyStep::Join(files) ==> views(files@) == assembly_files(chunk_base@, last),
{
    if final_exists {
        return AssemblyStep::Conflict;
    }
    let mut files: Vec<String> = Vec::new();
    let mut i: u32 = 0;
    while i <= last
        invariant
            i <= last + 1,
            last < u32::MAX,
            views(files@) == assembly_files(chunk_base@, last).take(i as int),
        decreases last + 1 - i,
    {
        let ghost before = views(files@);
        files.push(chunk_path(chunk_base, i));
        assert(views(files@) =~= before.push(chunk_file(chunk_base@, i)));
        i = i + 1;
        assert(views(files@) =~= assembly_files(chunk_base@, last).take(i as int));
    }
    assert(assembly_files(chunk_base@, last).take(i as int) =~= assembly_files(chunk_base@, last));
    AssemblyStep::Join(files)
}

/// Assembly reads each temporary file once: the files it joins are pairwise
/// different, and the `i`-th is chunk `i`.
pub proof fn lemma_assembly_reads_each_chunk_once(base: Seq<char>, last: u32)
    ensures
        assembly_files(base, last).len() == last + 1,
        forall|i: int| 0 <= i <= last ==> #[trigger] assembly_files(base, last)[i] == chunk_file(base, i as u32),
        forall|i: int, j: int|
            0 <= i <= last && 0 <= j <= last && i != j ==> #[trigger] assembly_files(base, last)[i]
                != #[trigger] assembly_files(base, last)[j],
{
    assert forall|i: int, j: int|
        0 <= i <= last && 0 <= j <= last && i != j implies #[trigger] assembly_files(base, last)[i]
            != #[trigger] assembly_files(base, last)[j] by {
        lemma_chunk_files_distinct(base, i as u32, j as u32);
    }
}

/// Different chunk numbers never share a temporary file, so joining chunks
/// `0` to `n` reads each chunk once.
pub proof fn lemma_chunk_files_distinct(base: Seq<char>, i: u32, j: u32)
    requires
        i != j,
    ensures
        chunk_file(base, i) != chunk_file(base, j),
{
    crate::number::lemma_parse_decimal(i);
    crate::number::lemma_parse_decimal(j);
    if chunk_file(base, i) == chunk_file(base, j) {
        let prefix = tmp_dir().push('/') + base.push('_');
        assert(chunk_file(base, i) =~= prefix + decimal(i as nat));
        assert(chunk_file(base, j) =~= prefix + decimal(j as nat));
        assert((prefix + decimal(i as nat)).skip(prefix.len() as int) =~= decimal(i as nat));
        assert((prefix + decimal(j as nat)).skip(prefix.len() as int) =~= decimal(j as nat));
    }
}

/// Whichever of a request's `file` and `chunk` fields comes first, the bytes
/// of the chunk end up in the temporary file of its number, which is the
/// file that finishing the request renames.
pub proof fn lemma_chunk_lands_in_numbered_file(m: UploadModel, text: Option<Seq<char>>, i: u32)
    requires
        parsed(text) == Some(i),
    ensures
        ({
            // `chunk` first, then `file`: the bytes are written to the numbered file.
            let m1 = next_model(m, FieldKind::Chunk, text);
            &&& field_action(m1, FieldKind::File, None) == ActionModel::WriteChunk(chunk_file(m.tmp_file_name, i))
            &&& next_model(m1, FieldKind::File, None).chunk_index == Some(i)
            &&& next_model(m1, FieldKind::File, None).tmp_file_name == m.tmp_file_name
        }),
        ({
            // `file` first, then `chunk`: the bytes are written to the pending
            // file, which the `chunk` field then renames to the numbered file.
            let m1 = next_model(m, FieldKind::File, None);
            m.chunk_index is None ==> {
                &&& field_action(m, FieldKind::File, None) == ActionModel::WriteChunk(pending_chunk_file(m.tmp_file_name))
                &&& field_action(m1, FieldKind::Chunk, text) == ActionModel::Rename(
                    pending_chunk_file(m.tmp_file_name),
                    chunk_file(m.tmp_file_name, i),
                )
                &&& next_model(m1, FieldKind::Chunk, text).chunk_index == Some(i)
                &&& next_model(m1, FieldKind::Chunk, text).tmp_file_name == m.tmp_file_name
            }
        }),
{
}

/// A request that carries the last chunk `t` of a file called `n`, for the
/// folder `p`, and no different `name`, is assembled under its original name
/// in `p`, from the chunks `0` to `t` that carry that name.
pub proof fn lemma_last_chunk_assembles_original_name(m: UploadModel, n: Seq<char>, p: Seq<char>, t: u32)
    requires
        m.data,
        m.chunk_index == Some(t),
        m.total_chunks == Some(t),
        m.upload_path == Some(p),
        m.original_file_name == Some(n),
        m.name_field is None || m.name_field == Some(n),
    ensures
        outcome_of(m) == OutcomeModel::Assemble(p, n, n, t),
{
}

/// After an `originalFilename` field whose text `n` holds a `.`, the ending
/// kept is the text after the last `.` of `n`: it holds no `.`, and `n` ends
/// with a `.` followed by it. The file name given with `name` later receives
/// this ending.
pub proof fn lemma_ending_is_text_after_last_dot(m: UploadModel, n: Seq<char>)
    requires
        n.contains('.'),
    ensures
        ({
            let m1 = next_model(m, FieldKind::OriginalFilename, Some(n));
            &&& m1.original_file_name == Some(n)
            &&& m1.original_file_ending is Some
            &&& !m1.original_file_ending->0.contains('.')
            &&& m1.original_file_ending->0.len() < n.len()
            &&& n[n.len() - m1.original_file_ending->0.len() - 1] == '.'
            &&& n.subrange(n.len() - m1.original_file_ending->0.len(), n.len() as int)
                == m1.original_file_ending->0
        }),
{
    crate::text::lemma_split_last_piece(n, '.');
}

/// A file uploaded under a different `name` keeps the extension of the
/// original file: after an `originalFilename` field `n` holding a `.`, with a
/// `name` field `x` that differs from `n`, the stored name is `x`, a `.`, and
/// the text after the last `.` of `n`.
pub proof fn lemma_renamed_upload_keeps_extension(m: UploadModel, n: Seq<char>, x: Seq<char>)
    requires
        n.contains('.'),
        x.len() > 0,
        x != n,
    ensures
        ({
            let m1 = next_model(next_model(m, FieldKind::OriginalFilename, Some(n)), FieldKind::Name, Some(x));
            let s = stored_name(m1);
            let e = s.len() - x.len() - 1;
            &&& s.len() > x.len()
            &&& s.subrange(0, x.len() as int) == x
            &&& s[x.len() as int] == '.'
            &&& !s.subrange(x.len() as int + 1, s.len() as int).contains('.')
            &&& e < n.len()
            &&& n[n.len() - e - 1] == '.'
            &&& n.subrange(n.len() - e, n.len() as int) == s.subrange(x.len() as int + 1, s.len() as int)
        }),
{
    lemma_ending_is_text_after_last_dot(m, n);
    let m0 = next_model(m, FieldKind::OriginalFilename, Some(n));
    let m1 = next_model(m0, FieldKind::Name, Some(x));
    let end = m0.original_file_ending->0;
    assert(m1.original_file_ending == Some(end));
    assert(m1.original_file_name == Some(n));
    assert(m1.name_field == Some(x));
    assert(Some(x) != Some(n));
    let s = stored_name(m1);
    assert(s == x + (seq!['.'] + end));
    assert(s.subrange(0, x.len() as int) =~= x);
    assert(s.subrange(x.len() as int + 1, s.len() as int) =~= end);
}

} // verus!
