//! How files are taken in and put beside a task's script.

use crate::api::{script_dir, Reply, ReplyStatus};
use crate::store::TaskStore;
use vstd::prelude::*;
use vstd::string::*;

verus! {

use crate::api;
use crate::api::ReplyView;
use crate::text;

broadcast use vstd::string::group_string_axioms;

/// Whether a file name can hold `c`: it is neither a control character nor one of
/// `/ ? < > \ : * | "`.
pub open spec fn is_legal(c: char) -> bool {
    &&& !('\u{0}' <= c <= '\u{1f}' || '\u{80}' <= c <= '\u{9f}')
    &&& !(c == '/' || c == '?' || c == '<' || c == '>' || c == '\\' || c == ':' || c == '*' || c
        == '|' || c == '"')
}

/// The characters of `name` that a file name can hold.
pub open spec fn legal_part(name: Seq<char>) -> Seq<char> {
    name.filter(|c: char| is_legal(c))
}

/// Whether `name` is made of dots, so that it stands for a directory.
pub open spec fn is_dots(name: Seq<char>) -> bool {
    name.len() > 0 && forall|i: int| 0 <= i < name.len() ==> #[trigger] name[i] == '.'
}

/// The number of bytes by which UTF-8 writes `c`.
pub open spec fn utf8_width(c: char) -> nat {
    if c <= '\u{7f}' {
        1
    } else if c <= '\u{7ff}' {
        2
    } else if c <= '\u{ffff}' {
        3
    } else {
        4
    }
}

/// The longest start of `name` that UTF-8 writes by at most `room` bytes.
pub open spec fn clipped(name: Seq<char>, room: nat) -> Seq<char>
    decreases name.len(),
{
    if name.len() == 0 || utf8_width(name[0]) > room {
        Seq::empty()
    } else {
        seq![name[0]] + clipped(name.drop_first(), (room - utf8_width(name[0])) as nat)
    }
}

/// A letter from `A` to `Z` as a small one, any other character as it is.
pub open spec fn small(c: char) -> char {
    if 'A' <= c <= 'Z' {
        (c as u32 + 32) as char
    } else {
        c
    }
}

/// Whether `stem` is the name of a device on Windows, in letters of any size.
pub open spec fn is_device(stem: Seq<char>) -> bool {
    let word = stem.map_values(|c: char| small(c));
    ||| word == "con"@ || word == "prn"@ || word == "aux"@ || word == "nul"@
    ||| {
        &&& word.len() == 4
        &&& word.take(3) == "com"@ || word.take(3) == "lpt"@
        &&& '0' <= word[3] <= '9'
    }
}

/// `name` without the dots and spaces at its end.
pub open spec fn without_ending(name: Seq<char>) -> Seq<char>
    decreases name.len(),
{
    if name.len() > 0 && (name.last() == '.' || name.last() == ' ') {
        without_ending(name.drop_last())
    } else {
        name
    }
}

/// What Windows lets stand of `name`: nothing where a device has that name, with or without an
/// extension, and no dots and spaces at the end.
pub open spec fn windows_part(name: Seq<char>) -> Seq<char> {
    if is_device(text::split(name, '.').first()) {
        Seq::empty()
    } else {
        without_ending(name)
    }
}

/// What is left of `name` for the name of a file, by the rules of Windows or others.
pub open spec fn sanitized(name: Seq<char>, windows: bool) -> Seq<char> {
    let kept = legal_part(name);
    if is_dots(kept) {
        Seq::empty()
    } else if windows {
        clipped(windows_part(kept), 255)
    } else {
        clipped(kept, 255)
    }
}

/// `sanitize_with_options` of `sanitize_filename`, with nothing put in the place of what goes and
/// with long names cut: the characters that a file name cannot hold go, and a name of dots goes
/// altogether. By the rules of Windows the name of a device goes altogether, too, and so do dots
/// and spaces at the end. Then what UTF-8 writes beyond 255 bytes is cut off.
#[verifier::external_body]
fn sanitize_with_options(name: &str, windows: bool) -> (r: String)
    ensures
        r@ == sanitized(name@, windows),
{
    let options = sanitize_filename::Options { windows, truncate: true, replacement: "" };
    sanitize_filename::sanitize_with_options(name, options)
}

/// `Options::default` of `sanitize_filename`: whether this program runs on Windows. It depends on
/// the machine that the program was made for.
#[verifier::external_body]
fn default_windows() -> (r: bool) {
    sanitize_filename::Options::default().windows
}

/// What is left of `name` for the name of a file, by the rules of Windows or others.
pub fn sanitize(name: &str, windows: bool) -> (r: String)
    ensures
        r@ == sanitized(name@, windows),
        is_file_name(r@),
        r@ != "."@,
        r@ != ".."@,
{
    proof {
        a_sanitized_name_is_a_file_name(name@, windows);
    }
    sanitize_with_options(name, windows)
}

/// What is left of any name is made of characters that a file name can hold, and it stands neither
/// for the directory that it is put in nor for the one above.
pub proof fn a_sanitized_name_is_a_file_name(name: Seq<char>, windows: bool)
    ensures
        is_file_name(sanitized(name, windows)),
        sanitized(name, windows) != "."@,
        sanitized(name, windows) != ".."@,
{
    broadcast use vstd::seq_lib::group_filter_ensures;

    reveal_strlit(".");
    reveal_strlit("..");
    assert("."@.len() == 1 && ".."@.len() == 2);
    let legal = |c: char| is_legal(c);
    let kept = legal_part(name);
    let rest = if windows {
        windows_part(kept)
    } else {
        kept
    };
    let file = sanitized(name, windows);
    lemma_without_ending(kept);
    lemma_clipped(rest, 255);
    if !is_dots(kept) {
        assert(rest.is_prefix_of(kept));
        assert forall|i: int| 0 <= i < file.len() implies is_legal(#[trigger] file[i]) by {
            assert(file[i] == rest[i] && rest[i] == kept[i]);
            assert(legal(name.filter(legal)[i]));
        }
        if file.len() < 60 {
            assert(file == rest);
            if windows {
                assert(file.len() > 0 ==> file.last() != '.');
            } else if file == "."@ || file == ".."@ {
                assert(is_dots(kept));
            }
        }
    }
}

proof fn lemma_without_ending(name: Seq<char>)
    ensures
        without_ending(name).is_prefix_of(name),
        without_ending(name).len() > 0 ==> without_ending(name).last() != '.',
    decreases name.len(),
{
    if name.len() > 0 {
        lemma_without_ending(name.drop_last());
    }
    assert(without_ending(name) =~= name.subrange(0, without_ending(name).len() as int));
}

/// What is cut to some room is a start; it is the whole where it leaves room for one more
/// character.
proof fn lemma_clipped(name: Seq<char>, room: nat)
    ensures
        clipped(name, room).is_prefix_of(name),
        4 * clipped(name, room).len() + 4 <= room ==> clipped(name, room) == name,
    decreases name.len(),
{
    if name.len() > 0 && utf8_width(name[0]) <= room {
        let rest = (room - utf8_width(name[0])) as nat;
        lemma_clipped(name.drop_first(), rest);
        let short = clipped(name.drop_first(), rest);
        assert(forall|i: int| 0 <= i < short.len() ==> short[i] == name.drop_first()[i]);
        assert(name =~= seq![name[0]] + name.drop_first());
    }
    assert(clipped(name, room) =~= name.subrange(0, clipped(name, room).len() as int));
}

/// What an upload is waiting for.
#[derive(Clone, Copy, Debug, PartialEq, Eq, Structural)]
pub enum UploadPhase {
    /// That the directory of the task is there.
    MakingDir,
    /// The next part of what is sent.
    AwaitingField,
    /// That the file of the current part has been made.
    Opening,
    /// The next piece of the current part.
    AwaitingChunk,
    /// That the current piece has been written.
    Writing,
    /// Nothing.
    Done,
}

/// What a part tells of the file that it holds.
#[derive(Debug)]
pub enum Disposition {
    /// Nothing.
    Missing,
    /// Something, but not its name.
    Unnamed,
    /// Its name.
    Named(String),
}

/// What has happened.
#[derive(Debug)]
pub enum UploadEvent {
    DirReady,
    DirFailed(String),
    /// A part has come.
    Field(Disposition),
    /// There are no more parts, or none that can be read.
    NoField,
    Opened,
    OpenFailed(String),
    /// A piece of the part has come.
    Chunk,
    /// There are no more pieces of the part, or none that can be read.
    FieldEnd,
    ChunkWritten,
    WriteFailed(String),
}

/// What has happened, as a value of mathematics.
pub ghost enum UploadEventView {
    DirReady,
    DirFailed(Seq<char>),
    FieldMissing,
    FieldUnnamed,
    FieldNamed(Seq<char>),
    NoField,
    Opened,
    OpenFailed(Seq<char>),
    Chunk,
    FieldEnd,
    ChunkWritten,
    WriteFailed(Seq<char>),
}

impl View for UploadEvent {
    type V = UploadEventView;

    open spec fn view(&self) -> UploadEventView {
        match self {
            UploadEvent::DirReady => UploadEventView::DirReady,
            UploadEvent::DirFailed(error) => UploadEventView::DirFailed(error@),
            UploadEvent::Field(Disposition::Missing) => UploadEventView::FieldMissing,
            UploadEvent::Field(Disposition::Unnamed) => UploadEventView::FieldUnnamed,
            UploadEvent::Field(Disposition::Named(name)) => UploadEventView::FieldNamed(name@),
            UploadEvent::NoField => UploadEventView::NoField,
            UploadEvent::Opened => UploadEventView::Opened,
            UploadEvent::OpenFailed(error) => UploadEventView::OpenFailed(error@),
            UploadEvent::Chunk => UploadEventView::Chunk,
            UploadEvent::FieldEnd => UploadEventView::FieldEnd,
            UploadEvent::ChunkWritten => UploadEventView::ChunkWritten,
            UploadEvent::WriteFailed(error) => UploadEventView::WriteFailed(error@),
        }
    }
}

/// What is to be done.
#[derive(Debug)]
pub enum UploadAction {
    /// Make this directory, unless it is there.
    MakeDir(String),
    /// Take the next part of what is sent.
    NextField,
    /// Make this file, empty.
    CreateFile(String),
    /// Take the next piece of the current part.
    NextChunk,
    /// Write the current piece to the current file.
    WriteChunk,
    /// Answer this.
    Answer(Reply),
}

/// What is to be done, as a value of mathematics.
pub ghost enum UploadActionView {
    MakeDir(Seq<char>),
    NextField,
    CreateFile(Seq<char>),
    NextChunk,
    WriteChunk,
    Answer(ReplyView),
}

impl View for UploadAction {
    type V = UploadActionView;

    open spec fn view(&self) -> UploadActionView {
        match self {
            UploadAction::MakeDir(path) => UploadActionView::MakeDir(path@),
            UploadAction::NextField => UploadActionView::NextField,
            UploadAction::CreateFile(path) => UploadActionView::CreateFile(path@),
            UploadAction::NextChunk => UploadActionView::NextChunk,
            UploadAction::WriteChunk => UploadActionView::WriteChunk,
            UploadAction::Answer(reply) => UploadActionView::Answer(reply@),
        }
    }
}

/// An upload under way.
#[derive(Debug)]
pub struct Upload {
    task_dir: String,
    windows: bool,
    phase: UploadPhase,
}

/// An upload under way, as a value of mathematics.
pub ghost struct UploadView {
    /// The directory in which the files are put.
    pub task_dir: Seq<char>,
    /// Whether the names of files follow the rules of Windows.
    pub windows: bool,
    pub phase: UploadPhase,
}

impl View for Upload {
    type V = UploadView;

    closed spec fn view(&self) -> UploadView {
        UploadView { task_dir: self.task_dir@, windows: self.windows, phase: self.phase }
    }
}

/// Whether `event` is one that an upload in `phase` waits for.
pub open spec fn is_awaited(phase: UploadPhase, event: UploadEventView) -> bool {
    match event {
        UploadEventView::DirReady | UploadEventView::DirFailed(_) => phase
            == UploadPhase::MakingDir,
        UploadEventView::FieldMissing
        | UploadEventView::FieldUnnamed
        | UploadEventView::FieldNamed(_)
        | UploadEventView::NoField => phase == UploadPhase::AwaitingField,
        UploadEventView::Opened | UploadEventView::OpenFailed(_) => phase == UploadPhase::Opening,
        UploadEventView::Chunk | UploadEventView::FieldEnd => phase == UploadPhase::AwaitingChunk,
        UploadEventView::ChunkWritten | UploadEventView::WriteFailed(_) => phase
            == UploadPhase::Writing,
    }
}

/// The file for what is sent under `name`.
pub open spec fn upload_file_path(
    task_dir: Seq<char>,
    name: Seq<char>,
    windows: bool,
) -> Seq<char> {
    task_dir + "/"@ + sanitized(name, windows)
}

/// Whether a file name can hold every character of `name`; none of them parts directories.
pub open spec fn is_file_name(name: Seq<char>) -> bool {
    forall|i: int| 0 <= i < name.len() ==> is_legal(#[trigger] name[i])
}

/// Whether `path` is a name directly in the directory `dir`, and neither that of the directory
/// itself nor that of the one above. (Where nothing is left of a name, it is empty.)
pub open spec fn lies_in(path: Seq<char>, dir: Seq<char>) -> bool {
    exists|name: Seq<char>| #[trigger]
        is_file_name(name) && name != "."@ && name != ".."@ && path == dir + "/"@ + name
}

/// The upload that is over.
pub open spec fn upload_over(upload: UploadView, reply: ReplyView) -> (
    UploadView,
    UploadActionView,
) {
    (UploadView { phase: UploadPhase::Done, ..upload }, UploadActionView::Answer(reply))
}

/// What becomes of an upload, and what is to be done next, once `event` has happened.
pub open spec fn upload_next(upload: UploadView, event: UploadEventView) -> (
    UploadView,
    UploadActionView,
) {
    match event {
        UploadEventView::DirReady | UploadEventView::FieldEnd => (
            UploadView { phase: UploadPhase::AwaitingField, ..upload },
            UploadActionView::NextField,
        ),
        UploadEventView::DirFailed(error) => upload_over(
            upload,
            api::plain(
                ReplyStatus::InternalServerError,
                "Failed to create task dir: "@ + error,
            ),
        ),
        UploadEventView::FieldMissing => upload_over(
            upload,
            api::plain(ReplyStatus::BadRequest, "No content disposition"@),
        ),
        UploadEventView::FieldUnnamed => upload_over(
            upload,
            api::plain(ReplyStatus::BadRequest, "No filename provided"@),
        ),
        UploadEventView::FieldNamed(name) => (
            UploadView { phase: UploadPhase::Opening, ..upload },
            UploadActionView::CreateFile(
                upload_file_path(upload.task_dir, name, upload.windows),
            ),
        ),
        UploadEventView::NoField => upload_over(
            upload,
            api::plain(ReplyStatus::Okay, "File uploaded"@),
        ),
        UploadEventView::Opened | UploadEventView::ChunkWritten => (
            UploadView { phase: UploadPhase::AwaitingChunk, ..upload },
            UploadActionView::NextChunk,
        ),
        UploadEventView::OpenFailed(error) => upload_over(
            upload,
            api::plain(ReplyStatus::InternalServerError, "Failed to create file: "@ + error),
        ),
        UploadEventView::Chunk => (
            UploadView { phase: UploadPhase::Writing, ..upload },
            UploadActionView::WriteChunk,
        ),
        UploadEventView::WriteFailed(error) => upload_over(
            upload,
            api::plain(ReplyStatus::InternalServerError, "Failed to write file: "@ + error),
        ),
    }
}

/// An upload that has been asked for.
pub open spec fn upload_begun(id: Seq<char>, windows: bool) -> UploadView {
    UploadView { task_dir: api::dir_of(id), windows, phase: UploadPhase::MakingDir }
}

/// What comes of asking for an upload to the task `id`: refused with a reply where there is no
/// such task.
pub open spec fn upload_asked(
    r: Result<(Upload, UploadAction), Reply>,
    known: bool,
    id: Seq<char>,
    windows: bool,
) -> bool {
    match r {
        Ok((upload, action)) => {
            &&& known
            &&& upload@ == upload_begun(id, windows)
            &&& action@ == UploadActionView::MakeDir(api::dir_of(id))
        },
        Err(reply) => !known && reply@ == api::not_found(),
    }
}

impl Upload {
    /// Asks for an upload to the task `id`, by the rules for file names of this machine.
    pub fn begin(tasks: &TaskStore, id: &String) -> (r: Result<(Upload, UploadAction), Reply>)
        requires
            tasks.wf(),
        ensures
            exists|windows: bool| #[trigger]
                upload_asked(r, tasks@.contains_key(id@), id@, windows),
    {
        Upload::begin_by(tasks, id, default_windows())
    }

    /// Asks for an upload to the task `id`, by the rules for file names of Windows or others.
    pub fn begin_by(tasks: &TaskStore, id: &String, windows: bool) -> (r: Result<
        (Upload, UploadAction),
        Reply,
    >)
        requires
            tasks.wf(),
        ensures
            upload_asked(r, tasks@.contains_key(id@), id@, windows),
    {
        if !tasks.contains_key(id) {
            return Err(Reply::task_not_found());
        }
        let task_dir = script_dir(id.as_str());
        let action = UploadAction::MakeDir(task_dir.clone());
        Ok((Upload { task_dir, windows, phase: UploadPhase::MakingDir }, action))
    }

    /// Whether the upload waits for `event`.
    pub fn awaits(&self, event: &UploadEvent) -> (r: bool)
        ensures
            r == is_awaited(self@.phase, event@),
    {
        match event {
            UploadEvent::DirReady | UploadEvent::DirFailed(_) => self.phase
                == UploadPhase::MakingDir,
            UploadEvent::Field(_) | UploadEvent::NoField => self.phase
                == UploadPhase::AwaitingField,
            UploadEvent::Opened | UploadEvent::OpenFailed(_) => self.phase == UploadPhase::Opening,
            UploadEvent::Chunk | UploadEvent::FieldEnd => self.phase == UploadPhase::AwaitingChunk,
            UploadEvent::ChunkWritten | UploadEvent::WriteFailed(_) => self.phase
                == UploadPhase::Writing,
        }
    }

    fn end(&mut self, reply: Reply) -> (r: UploadAction)
        ensures
            (final(self)@, r@) == upload_over(old(self)@, reply@),
    {
        self.phase = UploadPhase::Done;
        UploadAction::Answer(reply)
    }

    /// Takes note of `event` and tells what is to be done next.
    pub fn step(&mut self, event: UploadEvent) -> (r: UploadAction)
        requires
            is_awaited(old(self)@.phase, event@),
        ensures
            (final(self)@, r@) == upload_next(old(self)@, event@),
            r matches UploadAction::CreateFile(path) ==> lies_in(path@, old(self)@.task_dir),
    {
        match event {
            UploadEvent::DirReady | UploadEvent::FieldEnd => {
                self.phase = UploadPhase::AwaitingField;
                UploadAction::NextField
            },
            UploadEvent::DirFailed(error) => self.end(
                Reply::error("Failed to create task dir: ", error.as_str()),
            ),
            UploadEvent::Field(Disposition::Missing) => self.end(
                Reply::text(ReplyStatus::BadRequest, "No content disposition"),
            ),
            UploadEvent::Field(Disposition::Unnamed) => self.end(
                Reply::text(ReplyStatus::BadRequest, "No filename provided"),
            ),
            UploadEvent::Field(Disposition::Named(name)) => {
                self.phase = UploadPhase::Opening;
                let mut path = self.task_dir.clone();
                path.append("/");
                let file = sanitize(name.as_str(), self.windows);
                path.append(file.as_str());
                proof {
                    assert(is_file_name(file@) && path@ == self.task_dir@ + "/"@ + file@);
                }
                UploadAction::CreateFile(path)
            },
            UploadEvent::NoField => self.end(Reply::text(ReplyStatus::Okay, "File uploaded")),
            UploadEvent::Opened | UploadEvent::ChunkWritten => {
                self.phase = UploadPhase::AwaitingChunk;
                UploadAction::NextChunk
            },
            UploadEvent::OpenFailed(error) => self.end(
                Reply::error("Failed to create file: ", error.as_str()),
            ),
            UploadEvent::Chunk => {
                self.phase = UploadPhase::Writing;
                UploadAction::WriteChunk
            },
            UploadEvent::WriteFailed(error) => self.end(
                Reply::error("Failed to write file: ", error.as_str()),
            ),
        }
    }
}

} // verus!
