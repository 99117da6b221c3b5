//! The puller's side of a transfer of files, as a state machine.
use vstd::prelude::*;

use crate::packages::{EndOfFile, EndOfFileTransfer, FileGroup, StartOfFile, StartOfFileTransfer};
use crate::transfer::{spec_count_chunks, spec_next_chunk_len, FILE_TRANSFER_CHUNK_SIZE};

verus! {

/// Where the puller stands in a transfer. `files_left` counts the files
/// whose header has not come yet.
#[derive(Debug, Clone, Copy, PartialEq, Eq, Structural)]
pub enum ReceiverState {
    AwaitTransferStart,
    AwaitFileStart { files_left: usize },
    ReceivingChunks { files_left: usize, chunks_left: usize },
    AwaitFileEnd { files_left: usize },
    AwaitTransferEnd,
    Done,
}

/// The message that the puller reads next.
#[derive(Debug, Clone, Copy, PartialEq, Eq, Structural)]
pub enum Expected {
    TransferStart,
    FileStart,
    Chunk,
    FileEnd,
    TransferEnd,
    Nothing,
}

/// A message that the puller has read and parsed.
#[derive(Debug)]
pub enum ReceiverEvent {
    TransferStart(StartOfFileTransfer),
    FileStart(StartOfFile),
    Chunk(Vec<u8>),
    FileEnd(EndOfFile),
    TransferEnd(EndOfFileTransfer),
}

/// What the puller does with a message.
#[derive(Debug)]
pub enum ReceiverAction {
    /// Show the progress of a transfer of `total_size` bytes.
    StartProgress { total_size: u64 },
    /// Create the parent directories of `path`, and create or truncate the
    /// file at `path`.
    CreateFile { path: String },
    /// A file of a group that is not received: nothing to write.
    SkipFile,
    /// Append `data` to the open file, and advance the progress by its length.
    WriteChunk { data: Vec<u8> },
    /// The open file is complete.
    CloseFile,
    /// The transfer is complete.
    Finish,
}

/// A message as a value.
pub enum EventView {
    TransferStart { num_files: usize, total_size: u64 },
    FileStart { path: Seq<char>, group: FileGroup, num_chunks: usize },
    Chunk(Seq<u8>),
    FileEnd,
    TransferEnd,
}

/// An action as a value.
pub enum ActionView {
    StartProgress(u64),
    CreateFile(Seq<char>),
    SkipFile,
    WriteChunk(Seq<u8>),
    CloseFile,
    Finish,
}

impl ReceiverEvent {
    pub open spec fn view(&self) -> EventView {
        match self {
            ReceiverEvent::TransferStart(m) => EventView::TransferStart {
                num_files: m.num_files,
                total_size: m.total_size,
            },
            ReceiverEvent::FileStart(m) => EventView::FileStart {
                path: m.path@,
                group: m.file_group,
                num_chunks: m.num_chunks,
            },
            ReceiverEvent::Chunk(d) => EventView::Chunk(d@),
            ReceiverEvent::FileEnd(_) => EventView::FileEnd,
            ReceiverEvent::TransferEnd(_) => EventView::TransferEnd,
        }
    }
}

impl ReceiverAction {
    pub open spec fn view(&self) -> ActionView {
        match self {
            ReceiverAction::StartProgress { total_size } => ActionView::StartProgress(*total_size),
            ReceiverAction::CreateFile { path } => ActionView::CreateFile(path@),
            ReceiverAction::SkipFile => ActionView::SkipFile,
            ReceiverAction::WriteChunk { data } => ActionView::WriteChunk(data@),
            ReceiverAction::CloseFile => ActionView::CloseFile,
            ReceiverAction::Finish => ActionView::Finish,
        }
    }
}

/// The message that is read in each state.
pub open spec fn spec_expected(state: ReceiverState) -> Expected {
    match state {
        ReceiverState::AwaitTransferStart => Expected::TransferStart,
        ReceiverState::AwaitFileStart { .. } => Expected::FileStart,
        ReceiverState::ReceivingChunks { .. } => Expected::Chunk,
        ReceiverState::AwaitFileEnd { .. } => Expected::FileEnd,
        ReceiverState::AwaitTransferEnd => Expected::TransferEnd,
        ReceiverState::Done => Expected::Nothing,
    }
}

/// The state that follows a file when `files_left` files remain.
pub open spec fn after_file(files_left: usize) -> ReceiverState {
    if files_left == 0 {
        ReceiverState::AwaitTransferEnd
    } else {
        ReceiverState::AwaitFileStart { files_left }
    }
}

/// One step of the puller: the next state and the action for a message, or
/// `None` where the message is not the one that the state expects.
pub open spec fn receive(state: ReceiverState, event: EventView) -> Option<
    (ReceiverState, ActionView),
> {
    match (state, event) {
        (ReceiverState::AwaitTransferStart, EventView::TransferStart { num_files, total_size }) => {
            Some((after_file(num_files), ActionView::StartProgress(total_size)))
        },
        (
            ReceiverState::AwaitFileStart { files_left },
            EventView::FileStart { path, group, num_chunks },
        ) => {
            if files_left == 0 {
                None
            } else {
                let left = (files_left - 1) as usize;
                if group == FileGroup::New || group == FileGroup::Update {
                    if num_chunks == 0 {
                        Some((ReceiverState::AwaitFileEnd { files_left: left }, ActionView::CreateFile(path)))
                    } else {
                        Some(
                            (
                                ReceiverState::ReceivingChunks { files_left: left, chunks_left: num_chunks },
                                ActionView::CreateFile(path),
                            ),
                        )
                    }
                } else {
                    Some((after_file(left), ActionView::SkipFile))
                }
            }
        },
        (ReceiverState::ReceivingChunks { files_left, chunks_left }, EventView::Chunk(data)) => {
            if chunks_left <= 1 {
                Some((ReceiverState::AwaitFileEnd { files_left }, ActionView::WriteChunk(data)))
            } else {
                Some(
                    (
                        ReceiverState::ReceivingChunks {
                            files_left,
                            chunks_left: (chunks_left - 1) as usize,
                        },
                        ActionView::WriteChunk(data),
                    ),
                )
            }
        },
        (ReceiverState::AwaitFileEnd { files_left }, EventView::FileEnd) => {
            Some((after_file(files_left), ActionView::CloseFile))
        },
        (ReceiverState::AwaitTransferEnd, EventView::TransferEnd) => {
            Some((ReceiverState::Done, ActionView::Finish))
        },
        _ => None,
    }
}

/// The message that the puller reads in `state`.
pub fn expected_message(state: ReceiverState) -> (r: Expected)
    ensures
        r == spec_expected(state),
{
    match state {
        ReceiverState::AwaitTransferStart => Expected::TransferStart,
        ReceiverState::AwaitFileStart { .. } => Expected::FileStart,
        ReceiverState::ReceivingChunks { .. } => Expected::Chunk,
        ReceiverState::AwaitFileEnd { .. } => Expected::FileEnd,
        ReceiverState::AwaitTransferEnd => Expected::TransferEnd,
        ReceiverState::Done => Expected::Nothing,
    }
}

/// A message that the state did not expect.
#[derive(Debug, Clone, Copy, PartialEq, Eq, Structural)]
pub struct ProtocolError {
    pub expected: Expected,
}

/// One step of the puller, as `receive` states it; a message that the state
/// does not expect is an error that names what was expected.
pub fn receive_step(state: ReceiverState, event: ReceiverEvent) -> (r: Result<
    (ReceiverState, ReceiverAction),
    ProtocolError,
>)
    ensures
        match receive(state, event@) {
            Some((next, action)) => r matches Ok((s, a)) && s == next && a@ == action,
            None => r == Err::<(ReceiverState, ReceiverAction), _>(
                ProtocolError { expected: spec_expected(state) },
            ),
        },
{
    let expected = expected_message(state);
    match (state, event) {
        (ReceiverState::AwaitTransferStart, ReceiverEvent::TransferStart(m)) => {
            let next = if m.num_files == 0 {
                ReceiverState::AwaitTransferEnd
            } else {
                ReceiverState::AwaitFileStart { files_left: m.num_files }
            };
            Ok((next, ReceiverAction::StartProgress { total_size: m.total_size }))
        },
        (ReceiverState::AwaitFileStart { files_left }, ReceiverEvent::FileStart(m)) => {
            if files_left == 0 {
                Err(ProtocolError { expected })
            } else {
                let left = files_left - 1;
                match m.file_group {
                    FileGroup::New | FileGroup::Update => {
                        let next = if m.num_chunks == 0 {
                            ReceiverState::AwaitFileEnd { files_left: left }
                        } else {
                            ReceiverState::ReceivingChunks {
                                files_left: left,
                                chunks_left: m.num_chunks,
                            }
                        };
                        Ok((next, ReceiverAction::CreateFile { path: m.path }))
                    },
                    _ => {
                        let next = if left == 0 {
                            ReceiverState::AwaitTransferEnd
                        } else {
                            ReceiverState::AwaitFileStart { files_left: left }
                        };
                        Ok((next, ReceiverAction::SkipFile))
                    },
                }
            }
        },
        (ReceiverState::ReceivingChunks { files_left, chunks_left }, ReceiverEvent::Chunk(data)) => {
            let next = if chunks_left <= 1 {
                ReceiverState::AwaitFileEnd { files_left }
            } else {
                ReceiverState::ReceivingChunks { files_left, chunks_left: chunks_left - 1 }
            };
            Ok((next, ReceiverAction::WriteChunk { data }))
        },
        (ReceiverState::AwaitFileEnd { files_left }, ReceiverEvent::FileEnd(_)) => {
            let next = if files_left == 0 {
                ReceiverState::AwaitTransferEnd
            } else {
                ReceiverState::AwaitFileStart { files_left }
            };
            Ok((next, ReceiverAction::CloseFile))
        },
        (ReceiverState::AwaitTransferEnd, ReceiverEvent::TransferEnd(_)) => {
            Ok((ReceiverState::Done, ReceiverAction::Finish))
        },
        _ => Err(ProtocolError { expected }),
    }
}

/// The puller's steps over a sequence of messages: the final state and the
/// actions, or `None` where some message was not the one expected.
pub open spec fn run(state: ReceiverState, events: Seq<EventView>) -> Option<
    (ReceiverState, Seq<ActionView>),
>
    decreases events.len(),
{
    if events.len() == 0 {
        Some((state, Seq::empty()))
    } else {
        match receive(state, events[0]) {
            Some((next, action)) => match run(next, events.drop_first()) {
                Some((last, actions)) => Some((last, seq![action] + actions)),
                None => None,
            },
            None => None,
        }
    }
}

/// A file as a value: its path and its content.
pub type FileView = (Seq<char>, Seq<u8>);

/// The files written after one action, following those of `acc`: a created
/// file starts empty, and a chunk is appended to the last file.
pub open spec fn write_step(acc: Seq<FileView>, action: ActionView) -> Seq<FileView> {
    match action {
        ActionView::CreateFile(path) => acc.push((path, Seq::empty())),
        ActionView::WriteChunk(data) => if acc.len() == 0 {
            acc
        } else {
            acc.update(acc.len() - 1, (acc.last().0, acc.last().1 + data))
        },
        _ => acc,
    }
}

/// The files that a sequence of actions writes, following those of `acc`.
pub open spec fn written_from(acc: Seq<FileView>, actions: Seq<ActionView>) -> Seq<FileView>
    decreases actions.len(),
{
    if actions.len() == 0 {
        acc
    } else {
        written_from(write_step(acc, actions[0]), actions.drop_first())
    }
}

/// The chunks in which the content of a file is sent: pieces of
/// `FILE_TRANSFER_CHUNK_SIZE` bytes, the last possibly shorter.
pub open spec fn chunks_of(content: Seq<u8>) -> Seq<Seq<u8>>
    decreases content.len(),
{
    if content.len() == 0 {
        Seq::empty()
    } else if content.len() <= FILE_TRANSFER_CHUNK_SIZE {
        seq![content]
    } else {
        seq![content.take(FILE_TRANSFER_CHUNK_SIZE as int)] + chunks_of(
            content.skip(FILE_TRANSFER_CHUNK_SIZE as int),
        )
    }
}

/// The chunks that a sender sends that reads `spec_next_chunk_len` bytes of
/// what is left, sends them, and goes on until nothing is left.
pub open spec fn sent_chunks(content: Seq<u8>) -> Seq<Seq<u8>>
    decreases content.len(),
{
    if content.len() == 0 {
        Seq::empty()
    } else {
        let n = spec_next_chunk_len(content.len()) as int;
        seq![content.take(n)] + sent_chunks(content.skip(n))
    }
}

/// The sender that reads chunk by chunk with `next_chunk_len` sends exactly
/// the chunks of the content, as many as its header announces.
pub proof fn lemma_sent_chunks(content: Seq<u8>)
    ensures
        sent_chunks(content) == chunks_of(content),
        sent_chunks(content).len() == spec_count_chunks(content.len()),
    decreases content.len(),
{
    lemma_chunks_of(content);
    if content.len() > 0 {
        let n = spec_next_chunk_len(content.len()) as int;
        lemma_sent_chunks(content.skip(n));
        if content.len() <= FILE_TRANSFER_CHUNK_SIZE {
            assert(content.take(n) =~= content);
            assert(content.skip(n) =~= Seq::<u8>::empty());
            assert(sent_chunks(content) =~= seq![content]);
        } else {
            assert(sent_chunks(content) =~= chunks_of(content));
        }
    }
}

/// The messages that carry chunks.
pub open spec fn chunk_events(chunks: Seq<Seq<u8>>) -> Seq<EventView> {
    chunks.map_values(|c: Seq<u8>| EventView::Chunk(c))
}

/// The messages that the pusher sends for one file: its header in the group
/// `New`, its chunks (those that reading with `next_chunk_len` gives, by
/// `lemma_sent_chunks`), and the closing signal.
pub open spec fn file_events(file: FileView) -> Seq<EventView> {
    seq![
        EventView::FileStart {
            path: file.0,
            group: FileGroup::New,
            num_chunks: spec_count_chunks(file.1.len()) as usize,
        },
    ] + chunk_events(chunks_of(file.1)) + seq![EventView::FileEnd]
}

/// The messages for a sequence of files, one file after another.
pub open spec fn files_events(files: Seq<FileView>) -> Seq<EventView>
    decreases files.len(),
{
    if files.len() == 0 {
        Seq::empty()
    } else {
        file_events(files[0]) + files_events(files.drop_first())
    }
}

/// All the messages of a transfer of `files` of `total_size` bytes.
pub open spec fn transfer_events(files: Seq<FileView>, total_size: u64) -> Seq<EventView> {
    seq![EventView::TransferStart { num_files: files.len() as usize, total_size }] + files_events(
        files,
    ) + seq![EventView::TransferEnd]
}

/// Running over one message is one step.
pub proof fn lemma_run_one(state: ReceiverState, event: EventView)
    ensures
        run(state, seq![event]) == match receive(state, event) {
            Some((next, action)) => Some((next, seq![action])),
            None => None,
        },
{
    let events = seq![event];
    assert(events.drop_first() =~= Seq::<EventView>::empty());
    if let Some((next, action)) = receive(state, event) {
        assert(run(next, events.drop_first()) == Some((next, Seq::<ActionView>::empty())));
        assert(seq![action] + Seq::<ActionView>::empty() =~= seq![action]);
    }
}

/// Writing one action is one write step.
pub proof fn lemma_written_one(acc: Seq<FileView>, action: ActionView)
    ensures
        written_from(acc, seq![action]) == write_step(acc, action),
{
    let actions = seq![action];
    assert(actions.drop_first() =~= Seq::<ActionView>::empty());
    assert(written_from(write_step(acc, action), actions.drop_first()) == write_step(acc, action));
}

/// Running over two sequences of messages is running over the first, then
/// over the second from where the first ended.
pub proof fn lemma_run_append(state: ReceiverState, a: Seq<EventView>, b: Seq<EventView>)
    ensures
        run(state, a + b) == match run(state, a) {
            Some((mid, acts_a)) => match run(mid, b) {
                Some((last, acts_b)) => Some((last, acts_a + acts_b)),
                None => None,
            },
            None => None,
        },
    decreases a.len(),
{
    if a.len() == 0 {
        assert(a + b =~= b);
        match run(state, b) {
            Some((last, acts_b)) => {
                assert(Seq::<ActionView>::empty() + acts_b =~= acts_b);
            },
            None => {},
        }
    } else {
        assert((a + b).drop_first() =~= a.drop_first() + b);
        assert((a + b)[0] == a[0]);
        match receive(state, a[0]) {
            Some((next, action)) => {
                lemma_run_append(next, a.drop_first(), b);
                match run(next, a.drop_first()) {
                    Some((mid, acts)) => {
                        match run(mid, b) {
                            Some((last, acts_b)) => {
                                assert(seq![action] + acts + acts_b =~= seq![action] + (acts
                                    + acts_b));
                            },
                            None => {},
                        }
                    },
                    None => {},
                }
            },
            None => {},
        }
    }
}

/// Writing over two sequences of actions is writing over the first, then
/// over the second.
pub proof fn lemma_written_append(acc: Seq<FileView>, a: Seq<ActionView>, b: Seq<ActionView>)
    ensures
        written_from(acc, a + b) == written_from(written_from(acc, a), b),
    decreases a.len(),
{
    if a.len() == 0 {
        assert(a + b =~= b);
    } else {
        assert((a + b).drop_first() =~= a.drop_first() + b);
        assert((a + b)[0] == a[0]);
        lemma_written_append(write_step(acc, a[0]), a.drop_first(), b);
    }
}

/// The actions that write chunks.
pub open spec fn write_actions(chunks: Seq<Seq<u8>>) -> Seq<ActionView> {
    chunks.map_values(|c: Seq<u8>| ActionView::WriteChunk(c))
}

/// The concatenation of chunks.
pub open spec fn concat_chunks(chunks: Seq<Seq<u8>>) -> Seq<u8>
    decreases chunks.len(),
{
    if chunks.len() == 0 {
        Seq::empty()
    } else {
        chunks[0] + concat_chunks(chunks.drop_first())
    }
}

/// The chunks of a content are as many as `spec_count_chunks` says, none is
/// empty, and together they give back the content.
pub proof fn lemma_chunks_of(content: Seq<u8>)
    ensures
        chunks_of(content).len() == spec_count_chunks(content.len()),
        chunks_of(content).len() <= content.len(),
        forall|i: int| 0 <= i < chunks_of(content).len() ==> #[trigger] chunks_of(content)[i].len() > 0,
        concat_chunks(chunks_of(content)) == content,
    decreases content.len(),
{
    let c = FILE_TRANSFER_CHUNK_SIZE as int;
    if content.len() == 0 {
    } else if content.len() <= c {
        assert(seq![content].drop_first() =~= Seq::<Seq<u8>>::empty());
        assert(concat_chunks(seq![content].drop_first()) == Seq::<u8>::empty());
        assert(content + Seq::<u8>::empty() =~= content);
    } else {
        let rest = content.skip(c);
        lemma_chunks_of(rest);
        assert(chunks_of(content).drop_first() =~= chunks_of(rest));
        assert forall|i: int| 0 <= i < chunks_of(content).len() implies #[trigger] chunks_of(
            content,
        )[i].len() > 0 by {
            if i > 0 {
                assert(chunks_of(content)[i] == chunks_of(rest)[i - 1]);
            }
        }
        assert(content.take(c) + rest =~= content);
        assert(spec_count_chunks(content.len()) == spec_count_chunks(rest.len()) + 1) by {
            assert(content.len() == rest.len() + c);
        }
    }
}

/// Receiving the chunks of a file writes them one after another and ends
/// awaiting the file's closing signal.
pub proof fn lemma_run_chunks(files_left: usize, chunks: Seq<Seq<u8>>)
    requires
        0 < chunks.len() <= usize::MAX,
    ensures
        run(
            ReceiverState::ReceivingChunks { files_left, chunks_left: chunks.len() as usize },
            chunk_events(chunks),
        ) == Some((ReceiverState::AwaitFileEnd { files_left }, write_actions(chunks))),
    decreases chunks.len(),
{
    let state = ReceiverState::ReceivingChunks { files_left, chunks_left: chunks.len() as usize };
    let rest = chunks.drop_first();
    let head = seq![EventView::Chunk(chunks[0])];
    assert(chunk_events(chunks) =~= head + chunk_events(rest));
    assert(write_actions(chunks) =~= seq![ActionView::WriteChunk(chunks[0])] + write_actions(rest));
    lemma_run_one(state, EventView::Chunk(chunks[0]));
    lemma_run_append(state, head, chunk_events(rest));
    if chunks.len() == 1 {
        let next = ReceiverState::AwaitFileEnd { files_left };
        assert(run(next, chunk_events(rest)) == Some((next, Seq::<ActionView>::empty())));
        assert(write_actions(rest) =~= Seq::<ActionView>::empty());
    } else {
        lemma_run_chunks(files_left, rest);
    }
}

/// Writing chunks into the last file appends their concatenation to it.
pub proof fn lemma_written_chunks(acc: Seq<FileView>, chunks: Seq<Seq<u8>>)
    requires
        acc.len() > 0,
    ensures
        written_from(acc, write_actions(chunks)) == acc.update(
            acc.len() - 1,
            (acc.last().0, acc.last().1 + concat_chunks(chunks)),
        ),
    decreases chunks.len(),
{
    if chunks.len() == 0 {
        assert(acc.last().1 + Seq::<u8>::empty() =~= acc.last().1);
        assert(acc.update(acc.len() - 1, (acc.last().0, acc.last().1)) =~= acc);
    } else {
        let acts = write_actions(chunks);
        assert(acts[0] == ActionView::WriteChunk(chunks[0]));
        assert(acts.drop_first() =~= write_actions(chunks.drop_first()));
        let next = acc.update(acc.len() - 1, (acc.last().0, acc.last().1 + chunks[0]));
        lemma_written_chunks(next, chunks.drop_first());
        assert(acc.last().1 + chunks[0] + concat_chunks(chunks.drop_first()) =~= acc.last().1
            + concat_chunks(chunks));
        assert(next.update(
            next.len() - 1,
            (next.last().0, next.last().1 + concat_chunks(chunks.drop_first())),
        ) =~= acc.update(acc.len() - 1, (acc.last().0, acc.last().1 + concat_chunks(chunks))));
    }
}

/// Receiving the messages of one file creates it with its whole content.
pub proof fn lemma_run_file(files_left: usize, file: FileView, acc: Seq<FileView>)
    requires
        files_left > 0,
        file.1.len() <= usize::MAX,
    ensures
        run(ReceiverState::AwaitFileStart { files_left }, file_events(file)) matches Some(
            (last, actions),
        ) && last == after_file((files_left - 1) as usize) && written_from(acc, actions)
            == acc.push(file),
{
    let start = ReceiverState::AwaitFileStart { files_left };
    let left = (files_left - 1) as usize;
    let chunks = chunks_of(file.1);
    lemma_chunks_of(file.1);
    let header_event = EventView::FileStart {
        path: file.0,
        group: FileGroup::New,
        num_chunks: spec_count_chunks(file.1.len()) as usize,
    };
    let header = seq![header_event];
    let tail = chunk_events(chunks) + seq![EventView::FileEnd];
    assert(file_events(file) =~= header + tail);
    lemma_run_one(start, header_event);
    lemma_run_append(start, header, tail);
    let create = seq![ActionView::CreateFile(file.0)];
    let close = seq![ActionView::CloseFile];
    let created = acc.push((file.0, Seq::<u8>::empty()));
    lemma_written_one(acc, ActionView::CreateFile(file.0));
    lemma_written_one(acc.push(file), ActionView::CloseFile);
    if chunks.len() == 0 {
        let mid = ReceiverState::AwaitFileEnd { files_left: left };
        assert(tail =~= seq![EventView::FileEnd]);
        lemma_run_one(mid, EventView::FileEnd);
        assert(run(start, file_events(file)) == Some((after_file(left), create + close)));
        lemma_written_append(acc, create, close);
        assert(file.1 =~= Seq::<u8>::empty());
        assert(created =~= acc.push(file));
    } else {
        let mid = ReceiverState::ReceivingChunks { files_left: left, chunks_left: chunks.len() as usize };
        let end = ReceiverState::AwaitFileEnd { files_left: left };
        lemma_run_chunks(left, chunks);
        lemma_run_one(end, EventView::FileEnd);
        lemma_run_append(mid, chunk_events(chunks), seq![EventView::FileEnd]);
        let writes = write_actions(chunks);
        assert(run(start, file_events(file)) == Some((after_file(left), create + (writes + close))));
        lemma_written_append(acc, create, writes + close);
        lemma_written_append(created, writes, close);
        lemma_written_chunks(created, chunks);
        assert(Seq::<u8>::empty() + concat_chunks(chunks) =~= file.1);
        assert(created.update(created.len() - 1, (file.0, file.1)) =~= acc.push(file));
    }
}

/// Receiving the messages of a sequence of files, announced as many, writes
/// the files in order and ends awaiting the closing signal of the transfer.
pub proof fn lemma_run_files(files: Seq<FileView>, acc: Seq<FileView>)
    requires
        0 < files.len() <= usize::MAX,
        forall|i: int| 0 <= i < files.len() ==> (#[trigger] files[i]).1.len() <= usize::MAX,
    ensures
        run(ReceiverState::AwaitFileStart { files_left: files.len() as usize }, files_events(files))
            matches Some((last, actions)) && last == ReceiverState::AwaitTransferEnd
            && written_from(acc, actions) == acc + files,
    decreases files.len(),
{
    let n = files.len() as usize;
    let first = files[0];
    let rest = files.drop_first();
    lemma_run_file(n, first, acc);
    lemma_run_append(ReceiverState::AwaitFileStart { files_left: n }, file_events(first), files_events(rest));
    let (mid, acts1) = run(ReceiverState::AwaitFileStart { files_left: n }, file_events(first))->0;
    if rest.len() == 0 {
        assert(files_events(rest) =~= Seq::<EventView>::empty());
        assert(acts1 + Seq::<ActionView>::empty() =~= acts1);
        assert(acc.push(first) =~= acc + files);
    } else {
        assert forall|i: int| 0 <= i < rest.len() implies (#[trigger] rest[i]).1.len() <= usize::MAX by {
            assert(rest[i] == files[i + 1]);
        }
        lemma_run_files(rest, acc.push(first));
        let acts2 = (run(ReceiverState::AwaitFileStart { files_left: rest.len() as usize }, files_events(rest))->0).1;
        lemma_written_append(acc, acts1, acts2);
        assert(acc.push(first) + rest =~= acc + files);
    }
}

/// A transfer reproduces the files: the puller, fed the messages that the
/// pusher sends for `files`, accepts every one of them, ends in `Done`, and
/// has written exactly `files`, in order, each with its whole content.
pub proof fn lemma_transfer_reproduces_files(files: Seq<FileView>, total_size: u64)
    requires
        files.len() <= usize::MAX,
        forall|i: int| 0 <= i < files.len() ==> (#[trigger] files[i]).1.len() <= usize::MAX,
    ensures
        run(ReceiverState::AwaitTransferStart, transfer_events(files, total_size)) matches Some(
            (last, actions),
        ) && last == ReceiverState::Done && written_from(Seq::empty(), actions) == files,
{
    let s0 = ReceiverState::AwaitTransferStart;
    let start_event = EventView::TransferStart { num_files: files.len() as usize, total_size };
    let start = seq![start_event];
    let end = seq![EventView::TransferEnd];
    let body = files_events(files);
    let s1 = after_file(files.len() as usize);
    assert(transfer_events(files, total_size) =~= start + (body + end));
    lemma_run_one(s0, start_event);
    lemma_run_append(s0, start, body + end);
    lemma_run_append(s1, body, end);
    lemma_run_one(ReceiverState::AwaitTransferEnd, EventView::TransferEnd);
    let first_acts = seq![ActionView::StartProgress(total_size)];
    let last_acts = seq![ActionView::Finish];
    let empty = Seq::<FileView>::empty();
    lemma_written_one(empty, ActionView::StartProgress(total_size));
    lemma_written_one(files, ActionView::Finish);
    if files.len() == 0 {
        assert(body =~= Seq::<EventView>::empty());
        assert(run(s1, body) == Some((s1, Seq::<ActionView>::empty())));
        let actions = first_acts + (Seq::<ActionView>::empty() + last_acts);
        assert(run(s0, transfer_events(files, total_size)) == Some((ReceiverState::Done, actions)));
        assert(Seq::<ActionView>::empty() + last_acts =~= last_acts);
        lemma_written_append(empty, first_acts, last_acts);
        assert(files =~= empty);
    } else {
        lemma_run_files(files, empty);
        let mid_acts = (run(s1, body)->0).1;
        let actions = first_acts + (mid_acts + last_acts);
        assert(run(s0, transfer_events(files, total_size)) == Some((ReceiverState::Done, actions)));
        lemma_written_append(empty, first_acts, mid_acts + last_acts);
        lemma_written_append(empty, mid_acts, last_acts);
        assert(empty + files =~= files);
    }
}

} // verus!
