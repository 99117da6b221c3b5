use webcrane::packages::{
    EndOfFile, EndOfFileTransfer, FileGroup, RequestedFiles, StartOfFile, StartOfFileTransfer,
};
use webcrane::receiver::{
    expected_message, receive_step, Expected, ProtocolError, ReceiverAction, ReceiverEvent,
    ReceiverState,
};
use webcrane::transfer::{
    count_chunks, count_total_size, files_in_send_order, next_chunk_len, start_of_file,
    start_of_transfer, FileStat,
};

#[test]
fn count_chunks_rounds_up() {
    assert_eq!(count_chunks(0), 0);
    assert_eq!(count_chunks(1), 1);
    assert_eq!(count_chunks(4096), 1);
    assert_eq!(count_chunks(4097), 2);
    assert_eq!(count_chunks(3 * 4096), 3);
}

#[test]
fn next_chunk_len_takes_a_chunk_or_the_rest() {
    assert_eq!(next_chunk_len(0), 0);
    assert_eq!(next_chunk_len(10), 10);
    assert_eq!(next_chunk_len(4096), 4096);
    assert_eq!(next_chunk_len(4097), 4096);
    // Reading 10000 bytes chunk by chunk gives as many chunks as announced.
    let (mut left, mut chunks) = (10000u64, 0usize);
    while left > 0 {
        left -= next_chunk_len(left) as u64;
        chunks += 1;
    }
    assert_eq!(chunks, count_chunks(10000));
}

#[test]
fn count_total_size_sums_regular_files() {
    let stats = vec![
        FileStat { is_file: true, len: 10 },
        FileStat { is_file: false, len: 4096 },
        FileStat { is_file: true, len: 5 },
    ];
    assert_eq!(count_total_size(&stats), 15);
    assert_eq!(count_total_size(&vec![]), 0);
}

#[test]
fn send_order_and_headers() {
    let req = RequestedFiles::new(
        vec!["n1".to_string(), "n2".to_string()],
        vec!["u1".to_string()],
    );
    assert_eq!(files_in_send_order(&req), vec!["n1", "n2", "u1"]);
    let s = start_of_transfer(&req, 77);
    assert_eq!((s.num_files, s.total_size), (3, 77));
    let h = start_of_file(&"u1".to_string(), 5000);
    assert_eq!(h.path, "u1");
    assert_eq!(h.file_group, FileGroup::New);
    assert_eq!(h.num_chunks, 2);
}

/// The messages a pusher sends for the given files, chunked as it reads them.
fn sender_messages(files: &[(&str, Vec<u8>)]) -> Vec<ReceiverEvent> {
    let total: u64 = files.iter().map(|(_, c)| c.len() as u64).sum();
    let mut out = vec![ReceiverEvent::TransferStart(StartOfFileTransfer::new(files.len(), total))];
    for (p, c) in files {
        out.push(ReceiverEvent::FileStart(start_of_file(&p.to_string(), c.len())));
        let mut rest: &[u8] = c;
        while !rest.is_empty() {
            let n = next_chunk_len(rest.len() as u64);
            out.push(ReceiverEvent::Chunk(rest[..n].to_vec()));
            rest = &rest[n..];
        }
        out.push(ReceiverEvent::FileEnd(EndOfFile {}));
    }
    out.push(ReceiverEvent::TransferEnd(EndOfFileTransfer {}));
    out
}

/// Runs the puller over the messages and returns the files it wrote.
fn receive_all(events: Vec<ReceiverEvent>) -> (ReceiverState, Vec<(String, Vec<u8>)>) {
    let mut state = ReceiverState::AwaitTransferStart;
    let mut written: Vec<(String, Vec<u8>)> = vec![];
    for e in events {
        let (next, action) = receive_step(state, e).expect("message accepted");
        match action {
            ReceiverAction::CreateFile { path } => written.push((path, vec![])),
            ReceiverAction::WriteChunk { data } => written.last_mut().unwrap().1.extend(data),
            _ => {}
        }
        state = next;
    }
    (state, written)
}

#[test]
fn transfer_reproduces_files() {
    let big: Vec<u8> = (0..10000u32).map(|i| (i % 251) as u8).collect();
    let files = vec![("a.txt", b"hello".to_vec()), ("empty", vec![]), ("dir/big.bin", big.clone())];
    let (state, written) = receive_all(sender_messages(&files));
    assert_eq!(state, ReceiverState::Done);
    let expected: Vec<(String, Vec<u8>)> =
        files.iter().map(|(p, c)| (p.to_string(), c.clone())).collect();
    assert_eq!(written, expected);
}

#[test]
fn empty_transfer() {
    let (state, written) = receive_all(sender_messages(&[]));
    assert_eq!(state, ReceiverState::Done);
    assert!(written.is_empty());
}

#[test]
fn unexpected_message_is_an_error() {
    let r = receive_step(ReceiverState::AwaitTransferStart, ReceiverEvent::FileEnd(EndOfFile {}));
    assert_eq!(r.unwrap_err(), ProtocolError { expected: Expected::TransferStart });
    let r = receive_step(
        ReceiverState::AwaitFileEnd { files_left: 0 },
        ReceiverEvent::Chunk(vec![1]),
    );
    assert_eq!(r.unwrap_err(), ProtocolError { expected: Expected::FileEnd });
    let r = receive_step(ReceiverState::Done, ReceiverEvent::TransferEnd(EndOfFileTransfer {}));
    assert_eq!(r.unwrap_err(), ProtocolError { expected: Expected::Nothing });
    let r = receive_step(
        ReceiverState::AwaitFileStart { files_left: 0 },
        ReceiverEvent::FileStart(StartOfFile::new("p".to_string(), FileGroup::New, 0)),
    );
    assert_eq!(r.unwrap_err(), ProtocolError { expected: Expected::FileStart });
}

#[test]
fn files_of_other_groups_are_skipped() {
    let (next, action) = receive_step(
        ReceiverState::AwaitFileStart { files_left: 2 },
        ReceiverEvent::FileStart(StartOfFile::new("p".to_string(), FileGroup::Delete, 3)),
    )
    .unwrap();
    assert_eq!(next, ReceiverState::AwaitFileStart { files_left: 1 });
    assert!(matches!(action, ReceiverAction::SkipFile));
    let (next, _) = receive_step(
        ReceiverState::AwaitFileStart { files_left: 1 },
        ReceiverEvent::FileStart(StartOfFile::new("p".to_string(), FileGroup::Move, 3)),
    )
    .unwrap();
    assert_eq!(next, ReceiverState::AwaitTransferEnd);
}

#[test]
fn update_group_is_received_and_progress_starts() {
    let (next, action) = receive_step(
        ReceiverState::AwaitFileStart { files_left: 1 },
        ReceiverEvent::FileStart(StartOfFile::new("u".to_string(), FileGroup::Update, 2)),
    )
    .unwrap();
    assert_eq!(next, ReceiverState::ReceivingChunks { files_left: 0, chunks_left: 2 });
    assert!(matches!(action, ReceiverAction::CreateFile { path } if path == "u"));
    let (next, action) = receive_step(
        ReceiverState::AwaitTransferStart,
        ReceiverEvent::TransferStart(StartOfFileTransfer::new(2, 42)),
    )
    .unwrap();
    assert_eq!(next, ReceiverState::AwaitFileStart { files_left: 2 });
    assert!(matches!(action, ReceiverAction::StartProgress { total_size: 42 }));
}

#[test]
fn expected_message_follows_state() {
    assert_eq!(expected_message(ReceiverState::AwaitTransferStart), Expected::TransferStart);
    assert_eq!(expected_message(ReceiverState::AwaitFileStart { files_left: 1 }), Expected::FileStart);
    assert_eq!(
        expected_message(ReceiverState::ReceivingChunks { files_left: 0, chunks_left: 1 }),
        Expected::Chunk
    );
    assert_eq!(expected_message(ReceiverState::AwaitFileEnd { files_left: 0 }), Expected::FileEnd);
    assert_eq!(expected_message(ReceiverState::AwaitTransferEnd), Expected::TransferEnd);
    assert_eq!(expected_message(ReceiverState::Done), Expected::Nothing);
}
