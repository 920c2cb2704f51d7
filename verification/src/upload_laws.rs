//! What holds of an upload from its beginning to its end.

use crate::api::{Reply, ReplyStatus};
use crate::upload::{Disposition, Upload, UploadAction, UploadEvent, UploadPhase};
use vstd::prelude::*;

verus! {

use crate::api;
use crate::api::{BodyView, ReplyView};
use crate::laws;
use crate::upload;
use crate::upload::{UploadActionView, UploadEventView, UploadView};

/// The upload after `events` have happened one by one.
#[verifier::opaque]
pub open spec fn after(upload: UploadView, events: Seq<UploadEventView>) -> UploadView
    decreases events.len(),
{
    if events.len() == 0 {
        upload
    } else {
        upload::upload_next(after(upload, events.drop_last()), events.last()).0
    }
}

/// What the upload asks to be done as `events` happen one by one.
#[verifier::opaque]
pub open spec fn actions(upload: UploadView, events: Seq<UploadEventView>) -> Seq<UploadActionView>
    decreases events.len(),
{
    if events.len() == 0 {
        Seq::empty()
    } else {
        actions(upload, events.drop_last()).push(
            upload::upload_next(after(upload, events.drop_last()), events.last()).1,
        )
    }
}

/// Whether the upload waits for each of `events` when it happens.
#[verifier::opaque]
pub open spec fn awaited(upload: UploadView, events: Seq<UploadEventView>) -> bool
    decreases events.len(),
{
    events.len() > 0 ==> awaited(upload, events.drop_last()) && upload::is_awaited(
        after(upload, events.drop_last()).phase,
        events.last(),
    )
}

/// A part of what is sent: the name of its file, and in how many pieces it comes.
pub ghost struct FieldSent {
    pub name: Seq<char>,
    pub chunks: nat,
}

/// The events of `chunks` pieces that come and are written.
pub open spec fn chunks_written(chunks: nat) -> Seq<UploadEventView>
    decreases chunks,
{
    if chunks == 0 {
        Seq::empty()
    } else {
        chunks_written((chunks - 1) as nat) + seq![
            UploadEventView::Chunk,
            UploadEventView::ChunkWritten,
        ]
    }
}

/// What is asked for as `chunks` pieces come: each is written, and then the next is taken.
pub open spec fn chunk_actions(chunks: nat) -> Seq<UploadActionView>
    decreases chunks,
{
    if chunks == 0 {
        Seq::empty()
    } else {
        chunk_actions((chunks - 1) as nat) + seq![
            UploadActionView::WriteChunk,
            UploadActionView::NextChunk,
        ]
    }
}

/// The events of a part up to its last piece.
pub open spec fn field_opened(field: FieldSent) -> Seq<UploadEventView> {
    seq![UploadEventView::FieldNamed(field.name), UploadEventView::Opened] + chunks_written(
        field.chunks,
    )
}

/// What is asked for as a part comes, up to its last piece: its file is made, and the pieces are
/// written to it.
pub open spec fn opened_actions(upload: UploadView, field: FieldSent) -> Seq<UploadActionView> {
    seq![
        UploadActionView::CreateFile(
            upload::upload_file_path(upload.task_dir, field.name, upload.windows),
        ),
        UploadActionView::NextChunk,
    ] + chunk_actions(field.chunks)
}

/// The events of `fields` that come and are written one by one.
pub open spec fn fields_written(fields: Seq<FieldSent>) -> Seq<UploadEventView>
    decreases fields.len(),
{
    if fields.len() == 0 {
        Seq::empty()
    } else {
        fields_written(fields.drop_last()) + field_opened(fields.last()).push(
            UploadEventView::FieldEnd,
        )
    }
}

/// What is asked for as `fields` come one by one.
pub open spec fn field_actions(upload: UploadView, fields: Seq<FieldSent>) -> Seq<UploadActionView>
    decreases fields.len(),
{
    if fields.len() == 0 {
        Seq::empty()
    } else {
        field_actions(upload, fields.drop_last()) + opened_actions(upload, fields.last()).push(
            UploadActionView::NextField,
        )
    }
}

/// The events of an upload whose directory is there and of which `fields` have been written.
pub open spec fn upload_so_far(fields: Seq<FieldSent>) -> Seq<UploadEventView> {
    seq![UploadEventView::DirReady] + fields_written(fields)
}

/// What is asked for by an upload whose directory is there and of which `fields` are written.
pub open spec fn actions_so_far(
    upload: UploadView,
    fields: Seq<FieldSent>,
) -> Seq<UploadActionView> {
    seq![UploadActionView::NextField] + field_actions(upload, fields)
}

/// Whether an upload waits for each of `events`, asks for `asked` and then gives the answer
/// `reply`, and is over.
pub open spec fn is_answered(
    upload: UploadView,
    events: Seq<UploadEventView>,
    asked: Seq<UploadActionView>,
    reply: ReplyView,
) -> bool {
    &&& awaited(upload, events)
    &&& actions(upload, events) == asked.push(UploadActionView::Answer(reply))
    &&& after(upload, events).phase == UploadPhase::Done
}

proof fn lemma_none(upload: UploadView)
    ensures
        after(upload, Seq::empty()) == upload,
        actions(upload, Seq::empty()) == Seq::<UploadActionView>::empty(),
        awaited(upload, Seq::empty()),
{
    reveal(after);
    reveal(actions);
    reveal(awaited);
}

proof fn lemma_push(upload: UploadView, events: Seq<UploadEventView>, event: UploadEventView)
    ensures
        after(upload, events.push(event)) == upload::upload_next(after(upload, events), event).0,
        actions(upload, events.push(event)) == actions(upload, events).push(
            upload::upload_next(after(upload, events), event).1,
        ),
        awaited(upload, events.push(event)) == (awaited(upload, events) && upload::is_awaited(
            after(upload, events).phase,
            event,
        )),
{
    reveal(after);
    reveal(actions);
    reveal(awaited);
    assert(events.push(event).drop_last() =~= events);
}

/// Where `events` have happened and `asked` has been asked for.
spec fn stands(
    upload: UploadView,
    events: Seq<UploadEventView>,
    asked: Seq<UploadActionView>,
    phase: UploadPhase,
) -> bool {
    &&& awaited(upload, events)
    &&& actions(upload, events) == asked
    &&& after(upload, events) == (UploadView { phase, ..upload })
}

proof fn lemma_chunks(
    upload: UploadView,
    events: Seq<UploadEventView>,
    asked: Seq<UploadActionView>,
    chunks: nat,
)
    requires
        stands(upload, events, asked, UploadPhase::AwaitingChunk),
    ensures
        stands(
            upload,
            events + chunks_written(chunks),
            asked + chunk_actions(chunks),
            UploadPhase::AwaitingChunk,
        ),
    decreases chunks,
{
    if chunks == 0 {
        assert(events + chunks_written(chunks) =~= events);
        assert(asked + chunk_actions(chunks) =~= asked);
    } else {
        let less = (chunks - 1) as nat;
        lemma_chunks(upload, events, asked, less);
        let before = events + chunks_written(less);
        lemma_push(upload, before, UploadEventView::Chunk);
        lemma_push(upload, before.push(UploadEventView::Chunk), UploadEventView::ChunkWritten);
        assert(events + chunks_written(chunks) =~= before.push(UploadEventView::Chunk).push(
            UploadEventView::ChunkWritten,
        ));
        assert(asked + chunk_actions(chunks) =~= (asked + chunk_actions(less)).push(
            UploadActionView::WriteChunk,
        ).push(UploadActionView::NextChunk));
    }
}

proof fn lemma_opened(
    upload: UploadView,
    events: Seq<UploadEventView>,
    asked: Seq<UploadActionView>,
    field: FieldSent,
)
    requires
        stands(upload, events, asked, UploadPhase::AwaitingField),
    ensures
        stands(
            upload,
            events + field_opened(field),
            asked + opened_actions(upload, field),
            UploadPhase::AwaitingChunk,
        ),
{
    let named = UploadEventView::FieldNamed(field.name);
    let create = UploadActionView::CreateFile(
        upload::upload_file_path(upload.task_dir, field.name, upload.windows),
    );
    lemma_push(upload, events, named);
    lemma_push(upload, events.push(named), UploadEventView::Opened);
    let opened = events.push(named).push(UploadEventView::Opened);
    let then = asked.push(create).push(UploadActionView::NextChunk);
    lemma_chunks(upload, opened, then, field.chunks);
    assert(events + field_opened(field) =~= opened + chunks_written(field.chunks));
    assert(asked + opened_actions(upload, field) =~= then + chunk_actions(field.chunks));
}

proof fn lemma_fields(
    upload: UploadView,
    events: Seq<UploadEventView>,
    asked: Seq<UploadActionView>,
    fields: Seq<FieldSent>,
)
    requires
        stands(upload, events, asked, UploadPhase::AwaitingField),
    ensures
        stands(
            upload,
            events + fields_written(fields),
            asked + field_actions(upload, fields),
            UploadPhase::AwaitingField,
        ),
    decreases fields.len(),
{
    if fields.len() == 0 {
        assert(events + fields_written(fields) =~= events);
        assert(asked + field_actions(upload, fields) =~= asked);
    } else {
        let short = fields.drop_last();
        let field = fields.last();
        lemma_fields(upload, events, asked, short);
        let before = events + fields_written(short);
        let then = asked + field_actions(upload, short);
        lemma_opened(upload, before, then, field);
        lemma_push(upload, before + field_opened(field), UploadEventView::FieldEnd);
        assert(events + fields_written(fields) =~= (before + field_opened(field)).push(
            UploadEventView::FieldEnd,
        ));
        assert(asked + field_actions(upload, fields) =~= (then + opened_actions(
            upload,
            field,
        )).push(UploadActionView::NextField));
    }
}

proof fn lemma_so_far(upload: UploadView, fields: Seq<FieldSent>)
    requires
        upload.phase == UploadPhase::MakingDir,
    ensures
        stands(
            upload,
            upload_so_far(fields),
            actions_so_far(upload, fields),
            UploadPhase::AwaitingField,
        ),
{
    lemma_none(upload);
    lemma_push(upload, Seq::empty(), UploadEventView::DirReady);
    let first = seq![UploadEventView::DirReady];
    let asked = seq![UploadActionView::NextField];
    assert(first =~= Seq::empty().push(UploadEventView::DirReady));
    assert(actions(upload, first) =~= asked);
    lemma_fields(upload, first, asked, fields);
}

/// An upload that goes through: for each part its file is made in the directory of the task, each
/// piece is written to it in turn, and when there are no more parts the upload is answered by
/// success.
pub proof fn an_upload_writes_each_part(id: Seq<char>, windows: bool, fields: Seq<FieldSent>)
    ensures
        is_answered(
            upload::upload_begun(id, windows),
            upload_so_far(fields).push(UploadEventView::NoField),
            actions_so_far(upload::upload_begun(id, windows), fields),
            api::plain(ReplyStatus::Okay, "File uploaded"@),
        ),
{
    let upload = upload::upload_begun(id, windows);
    lemma_so_far(upload, fields);
    lemma_push(upload, upload_so_far(fields), UploadEventView::NoField);
}

/// A part without a name ends an upload: the parts before it have been written, and the upload is
/// refused.
pub proof fn a_part_without_a_name_is_refused(
    id: Seq<char>,
    windows: bool,
    fields: Seq<FieldSent>,
)
    ensures
        is_answered(
            upload::upload_begun(id, windows),
            upload_so_far(fields).push(UploadEventView::FieldMissing),
            actions_so_far(upload::upload_begun(id, windows), fields),
            api::plain(ReplyStatus::BadRequest, "No content disposition"@),
        ),
        is_answered(
            upload::upload_begun(id, windows),
            upload_so_far(fields).push(UploadEventView::FieldUnnamed),
            actions_so_far(upload::upload_begun(id, windows), fields),
            api::plain(ReplyStatus::BadRequest, "No filename provided"@),
        ),
{
    let upload = upload::upload_begun(id, windows);
    lemma_so_far(upload, fields);
    lemma_push(upload, upload_so_far(fields), UploadEventView::FieldMissing);
    lemma_push(upload, upload_so_far(fields), UploadEventView::FieldUnnamed);
}

/// Where the directory of the task cannot be made, an upload is over at once.
pub proof fn an_upload_without_a_directory_fails(id: Seq<char>, windows: bool, error: Seq<char>)
    ensures
        is_answered(
            upload::upload_begun(id, windows),
            seq![UploadEventView::DirFailed(error)],
            Seq::empty(),
            api::plain(ReplyStatus::InternalServerError, "Failed to create task dir: "@ + error),
        ),
{
    let upload = upload::upload_begun(id, windows);
    lemma_none(upload);
    lemma_push(upload, Seq::empty(), UploadEventView::DirFailed(error));
    assert(seq![UploadEventView::DirFailed(error)] =~= Seq::empty().push(
        UploadEventView::DirFailed(error),
    ));
}

/// Where a file cannot be made, or a piece cannot be written, an upload is over: the parts before,
/// and the pieces before, have been written.
pub proof fn an_upload_that_cannot_write_fails(
    id: Seq<char>,
    windows: bool,
    fields: Seq<FieldSent>,
    field: FieldSent,
    error: Seq<char>,
)
    ensures
        ({
            let upload = upload::upload_begun(id, windows);
            let asked = actions_so_far(upload, fields);
            &&& is_answered(
                upload,
                upload_so_far(fields).push(UploadEventView::FieldNamed(field.name)).push(
                    UploadEventView::OpenFailed(error),
                ),
                asked.push(
                    UploadActionView::CreateFile(
                        upload::upload_file_path(upload.task_dir, field.name, windows),
                    ),
                ),
                api::plain(ReplyStatus::InternalServerError, "Failed to create file: "@ + error),
            )
            &&& is_answered(
                upload,
                (upload_so_far(fields) + field_opened(field)).push(UploadEventView::Chunk).push(
                    UploadEventView::WriteFailed(error),
                ),
                (asked + opened_actions(upload, field)).push(UploadActionView::WriteChunk),
                api::plain(ReplyStatus::InternalServerError, "Failed to write file: "@ + error),
            )
        }),
{
    let upload = upload::upload_begun(id, windows);
    let events = upload_so_far(fields);
    let named = UploadEventView::FieldNamed(field.name);
    lemma_so_far(upload, fields);
    lemma_push(upload, events, named);
    lemma_push(upload, events.push(named), UploadEventView::OpenFailed(error));
    lemma_opened(upload, events, actions_so_far(upload, fields), field);
    let opened = events + field_opened(field);
    lemma_push(upload, opened, UploadEventView::Chunk);
    lemma_push(upload, opened.push(UploadEventView::Chunk), UploadEventView::WriteFailed(error));
}

/// Whatever is sent and whatever happens, an upload makes no file but directly in the directory of
/// its task, and goes on with that directory.
pub proof fn nothing_is_put_elsewhere(upload: UploadView, events: Seq<UploadEventView>)
    ensures
        after(upload, events).task_dir == upload.task_dir,
        forall|i: int|
            0 <= i < actions(upload, events).len() ==> (
            #[trigger] actions(upload, events)[i] matches UploadActionView::CreateFile(path)
                ==> upload::lies_in(path, upload.task_dir)),
    decreases events.len(),
{
    if events.len() == 0 {
        assert(events =~= Seq::empty());
        lemma_none(upload);
    } else {
        let short = events.drop_last();
        nothing_is_put_elsewhere(upload, short);
        assert(events =~= short.push(events.last()));
        lemma_push(upload, short, events.last());
        if let UploadEventView::FieldNamed(name) = events.last() {
            laws::an_upload_stays_in_its_directory(
                upload.task_dir,
                name,
                after(upload, short).windows,
            );
        }
        let earlier = actions(upload, short);
        assert forall|i: int| 0 <= i < actions(upload, events).len() implies (
        #[trigger] actions(upload, events)[i] matches UploadActionView::CreateFile(path)
            ==> upload::lies_in(path, upload.task_dir)) by {
            if i < earlier.len() {
                assert(actions(upload, events)[i] == earlier[i]);
            }
        }
    }
}

/// An upload that has been answered waits for nothing more, so it is answered once.
pub proof fn an_upload_is_answered_once(upload: UploadView, events: Seq<UploadEventView>)
    requires
        awaited(upload, events),
    ensures
        forall|i: int|
            0 <= i < actions(upload, events).len() - 1 ==> !(
            #[trigger] actions(upload, events)[i] is Answer),
        actions(upload, events).len() == events.len(),
        events.len() > 0 ==> (actions(upload, events).last() is Answer <==> after(
            upload,
            events,
        ).phase == UploadPhase::Done),
    decreases events.len(),
{
    if events.len() == 0 {
        assert(events =~= Seq::empty());
        lemma_none(upload);
    } else {
        let short = events.drop_last();
        assert(events =~= short.push(events.last()));
        lemma_push(upload, short, events.last());
        an_upload_is_answered_once(upload, short);
        let earlier = actions(upload, short);
        assert forall|i: int| 0 <= i < actions(upload, events).len() - 1 implies !(
        #[trigger] actions(upload, events)[i] is Answer) by {
            assert(actions(upload, events)[i] == earlier[i]);
            if i == earlier.len() - 1 {
                assert(earlier[i] == earlier.last());
            }
        }
    }
}

/// A file goes, under what is left of its name, into the directory of its task, whose place the
/// identifier of the task settles. An upload to a task that is there begins by asking for that
/// directory; one to any other task is refused.
pub proof fn a_file_goes_into_the_directory_of_its_task(
    r: Result<(Upload, UploadAction), Reply>,
    known: bool,
    id: Seq<char>,
    name: Seq<char>,
    windows: bool,
)
    ensures
        upload::upload_begun(id, windows).task_dir == "data/scripts/"@ + id,
        upload::upload_begun(id, windows).windows == windows,
        upload::upload_file_path("data/scripts/"@ + id, name, windows) == "data/scripts/"@ + id
            + "/"@ + upload::sanitized(name, windows),
        upload::upload_asked(r, known, id, windows) ==> {
            &&& known ==> r is Ok
            &&& !known ==> r is Err
            &&& r matches Ok((upload, action)) ==> upload@ == upload::upload_begun(id, windows)
                && action@ == UploadActionView::MakeDir("data/scripts/"@ + id)
            &&& r matches Err(reply) ==> reply@.status.spec_code() == 404 && reply@.body
                == BodyView::Text("Task not found"@)
        },
{
    crate::task_laws::places_have_their_names(id);
}

/// Whether `event` is an answer to the request `action`.
pub open spec fn answers(action: UploadActionView, event: UploadEventView) -> bool {
    match action {
        UploadActionView::MakeDir(_) => event is DirReady || event is DirFailed,
        UploadActionView::NextField => event is FieldMissing || event is FieldUnnamed || event
            is FieldNamed || event is NoField,
        UploadActionView::CreateFile(_) => event is Opened || event is OpenFailed,
        UploadActionView::NextChunk => event is Chunk || event is FieldEnd,
        UploadActionView::WriteChunk => event is ChunkWritten || event is WriteFailed,
        UploadActionView::Answer(_) => false,
    }
}

/// An upload waits for the answers to what it has asked for last, and for nothing else; once it
/// has been answered it waits for nothing.
pub proof fn an_upload_waits_for_the_answer_to_its_request(
    upload: UploadView,
    event: UploadEventView,
    then: UploadEventView,
    id: Seq<char>,
    windows: bool,
)
    requires
        upload::is_awaited(upload.phase, event),
    ensures
        upload::is_awaited(upload::upload_next(upload, event).0.phase, then) <==> answers(
            upload::upload_next(upload, event).1,
            then,
        ),
        upload::is_awaited(upload::upload_begun(id, windows).phase, then) <==> then is DirReady
            || then is DirFailed,
{
}

/// What is said of an event and an action of an upload is said of its own parts.
pub proof fn events_and_actions_of_uploads_are_their_parts(
    event: UploadEvent,
    action: UploadAction,
)
    ensures
        event is DirReady <==> event@ is DirReady,
        event is NoField <==> event@ is NoField,
        event is Opened <==> event@ is Opened,
        event is Chunk <==> event@ is Chunk,
        event is FieldEnd <==> event@ is FieldEnd,
        event is ChunkWritten <==> event@ is ChunkWritten,
        event matches UploadEvent::DirFailed(error) ==> event@ == UploadEventView::DirFailed(
            error@,
        ),
        event matches UploadEvent::OpenFailed(error) ==> event@ == UploadEventView::OpenFailed(
            error@,
        ),
        event matches UploadEvent::WriteFailed(error) ==> event@ == UploadEventView::WriteFailed(
            error@,
        ),
        event matches UploadEvent::Field(Disposition::Missing) ==> event@ is FieldMissing,
        event matches UploadEvent::Field(Disposition::Unnamed) ==> event@ is FieldUnnamed,
        event matches UploadEvent::Field(Disposition::Named(name)) ==> event@
            == UploadEventView::FieldNamed(name@),
        action is NextField <==> action@ is NextField,
        action is NextChunk <==> action@ is NextChunk,
        action is WriteChunk <==> action@ is WriteChunk,
        action matches UploadAction::MakeDir(path) ==> action@ == UploadActionView::MakeDir(path@),
        action matches UploadAction::CreateFile(path) ==> action@ == UploadActionView::CreateFile(
            path@,
        ),
        action matches UploadAction::Answer(reply) ==> action@ == UploadActionView::Answer(reply@),
{
}

/// A character that no file name can hold goes, and nothing else of the name goes with it.
pub proof fn an_illegal_character_goes(a: Seq<char>, c: char, b: Seq<char>, windows: bool)
    requires
        c == '/' || c == '?' || c == '<' || c == '>' || c == '\\' || c == ':' || c == '*' || c
            == '|' || c == '"' || c <= '\u{1f}' || '\u{80}' <= c <= '\u{9f}',
    ensures
        upload::sanitized(a + seq![c] + b, windows) == upload::sanitized(a + b, windows),
{
    let legal = |c: char| upload::is_legal(c);
    reveal(Seq::filter);
    lemma_legal_parts(a, seq![c] + b);
    lemma_legal_parts(seq![c], b);
    lemma_legal_parts(a, b);
    assert(a + seq![c] + b =~= a + (seq![c] + b));
    assert(seq![c].drop_last() =~= Seq::empty());
    assert(seq![c].drop_last().filter(legal) =~= Seq::empty());
    assert(upload::legal_part(seq![c]) =~= Seq::empty());
    assert(upload::legal_part(seq![c]) + upload::legal_part(b) =~= upload::legal_part(b));
}

proof fn lemma_legal_parts(a: Seq<char>, b: Seq<char>)
    ensures
        upload::legal_part(a + b) == upload::legal_part(a) + upload::legal_part(b),
    decreases b.len(),
{
    reveal(Seq::filter);
    if b.len() == 0 {
        assert(a + b =~= a);
        assert(upload::legal_part(a) + upload::legal_part(b) =~= upload::legal_part(a));
    } else {
        lemma_legal_parts(a, b.drop_last());
        assert((a + b).drop_last() =~= a + b.drop_last());
        assert(upload::legal_part(a + b) =~= upload::legal_part(a) + upload::legal_part(b));
    }
}

/// A short name that holds nothing but legal characters, and is not made of dots, is kept where
/// the rules are not those of Windows. A name of dots goes by either set of rules.
pub proof fn a_legal_name_is_kept(name: Seq<char>)
    requires
        forall|i: int|
            0 <= i < name.len() ==> {
                let c = #[trigger] name[i];
                &&& c > '\u{1f}' && !('\u{80}' <= c <= '\u{9f}')
                &&& c != '/' && c != '?' && c != '<' && c != '>' && c != '\\' && c != ':' && c
                    != '*' && c != '|' && c != '"'
            },
    ensures
        name.len() <= 62 && (exists|i: int| 0 <= i < name.len() && #[trigger] name[i] != '.')
            ==> upload::sanitized(name, false) == name,
        (forall|i: int| 0 <= i < name.len() ==> #[trigger] name[i] == '.') ==> upload::sanitized(
            name,
            false,
        ).len() == 0 && upload::sanitized(name, true).len() == 0,
{
    assert forall|i: int| 0 <= i < name.len() implies upload::is_legal(#[trigger] name[i]) by {}
    lemma_legal_name(name);
    if name.len() <= 62 {
        lemma_short_name(name, 255);
    }
    if name.len() == 0 {
        assert(upload::windows_part(name).len() == 0);
    }
}

proof fn lemma_legal_name(name: Seq<char>)
    requires
        forall|i: int| 0 <= i < name.len() ==> upload::is_legal(#[trigger] name[i]),
    ensures
        upload::legal_part(name) == name,
    decreases name.len(),
{
    reveal(Seq::filter);
    if name.len() == 0 {
        assert(upload::legal_part(name) =~= name);
    } else {
        let short = name.drop_last();
        assert forall|i: int| 0 <= i < short.len() implies upload::is_legal(
            #[trigger] short[i],
        ) by {
            assert(short[i] == name[i]);
        }
        lemma_legal_name(short);
        assert(upload::is_legal(name[name.len() - 1]));
        assert(name =~= short.push(name.last()));
    }
}

proof fn lemma_short_name(name: Seq<char>, room: nat)
    requires
        4 * name.len() <= room,
    ensures
        upload::clipped(name, room) == name,
    decreases name.len(),
{
    if name.len() > 0 {
        let rest = (room - upload::utf8_width(name[0])) as nat;
        lemma_short_name(name.drop_first(), rest);
        assert(name =~= seq![name[0]] + name.drop_first());
    } else {
        assert(upload::clipped(name, room) =~= name);
    }
}

} // verus!
