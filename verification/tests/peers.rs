use libpeers::error::EkkeError;
use libpeers::msg::{Buffer, IpcMessage, Write};
use libpeers::peer::{accept_first, listen_step, ListenStep};
use libpeers::processor::Processor;
use libpeers::server::{Collected, IpcServer, ServeStep, StreamCollector, READ_CHUNK_SIZE};

fn feed(reads: &[Result<&[u8], ()>]) -> Option<Buffer> {
    let mut collector = StreamCollector::new();
    for read in reads {
        match collector.on_read(*read) {
            Collected::Reading(next) => collector = next,
            Collected::Complete(buffer) => return Some(buffer),
            Collected::Failed => return None,
        }
    }
    panic!("stream did not finish");
}

#[test]
fn error_messages() {
    assert_eq!(EkkeError::UseSocketBeforeConnect.message(), "Cannot use socket before connecting");
    assert_eq!(EkkeError::NoConnectionsReceived.message(), "Nobody connected to the socket");
}

#[test]
fn collector_starts_empty() {
    let collector = StreamCollector::new();
    assert!(collector.collected().is_empty());
}

#[test]
fn collector_appends_chunks() {
    let collector = StreamCollector::new();
    let collector = match collector.on_read::<()>(Ok(b"abc")) {
        Collected::Reading(c) => c,
        _ => panic!("expected to keep reading"),
    };
    assert_eq!(collector.collected(), b"abc");
    let collector = match collector.on_read::<()>(Ok(b"de")) {
        Collected::Reading(c) => c,
        _ => panic!("expected to keep reading"),
    };
    assert_eq!(collector.collected(), b"abcde");
}

#[test]
fn complete_stream_delivers_all_bytes() {
    let buffer = feed(&[Ok(b"Peer"), Ok(b"B says "), Ok(b"hi!\n"), Ok(b""), Ok(b"never read")]).unwrap();
    assert_eq!(buffer.inner, b"PeerB says hi!\n".to_vec());
}

#[test]
fn empty_stream_delivers_empty_buffer() {
    let buffer = feed(&[Ok(b"")]).unwrap();
    assert!(buffer.inner.is_empty());
}

#[test]
fn failed_read_delivers_nothing() {
    assert!(feed(&[Ok(b"some"), Ok(b" bytes"), Err(()), Ok(b"")]).is_none());
    assert!(feed(&[Err(())]).is_none());
}

#[test]
fn read_chunk_size() {
    assert_eq!(READ_CHUNK_SIZE, 1024);
}

#[test]
fn server_serves_accepted_streams_and_stops_at_end() {
    let server = IpcServer::new();
    match server.on_incoming::<u32, ()>(Some(Ok(7))) {
        ServeStep::Serve(s) => assert_eq!(s, 7),
        ServeStep::Stop => panic!("expected to serve"),
    }
    assert!(matches!(server.on_incoming::<u32, ()>(None), ServeStep::Stop));
}

#[test]
fn accept_first_outcomes() {
    assert_eq!(accept_first::<u32, ()>(Some(Ok(3))), Some(Ok(3)));
    assert_eq!(accept_first::<u32, ()>(Some(Err(()))), None);
    assert_eq!(accept_first::<u32, ()>(None), Some(Err(EkkeError::NoConnectionsReceived)));
}

fn bind(incomes: Vec<Option<Result<u32, &'static str>>>) -> Result<u32, EkkeError> {
    for income in incomes {
        if let Some(outcome) = accept_first(income) {
            return outcome;
        }
    }
    panic!("listener must end with None");
}

#[test]
fn bind_takes_first_connection() {
    assert_eq!(bind(vec![Some(Err("bad")), Some(Err("bad")), Some(Ok(5)), Some(Ok(6)), None]), Ok(5));
}

#[test]
fn bind_without_connection_fails() {
    assert_eq!(bind(vec![Some(Err("bad")), None]), Err(EkkeError::NoConnectionsReceived));
    assert_eq!(bind(vec![None]), Err(EkkeError::NoConnectionsReceived));
}

#[test]
fn listen_step_outcomes() {
    assert!(matches!(listen_step::<u8, ()>(Some(Ok(1))), ListenStep::Deliver(1)));
    assert!(matches!(listen_step::<u8, ()>(Some(Err(()))), ListenStep::Skip));
    assert!(matches!(listen_step::<u8, ()>(None), ListenStep::Disconnected));
}

#[test]
fn listen_forwards_decoded_frames_in_order() {
    let items: Vec<Option<Result<&str, ()>>> = vec![
        Some(Ok("PeerB says hi!\n")),
        Some(Err(())),
        Some(Ok("PeerB says hi more!\n")),
        Some(Ok("PeerB says \nhi even more!!!")),
        None,
        Some(Ok("after disconnect")),
    ];
    let mut forwarded = Vec::new();
    for item in items {
        match listen_step(item) {
            ListenStep::Deliver(frame) => forwarded.push(frame),
            ListenStep::Skip => continue,
            ListenStep::Disconnected => break,
        }
    }
    assert_eq!(forwarded, vec!["PeerB says hi!\n", "PeerB says hi more!\n", "PeerB says \nhi even more!!!"]);
}

#[test]
fn processor_decodes_utf8() {
    let processor = Processor::new();
    let buffer = Buffer { inner: "grüße, peer".as_bytes().to_vec() };
    assert_eq!(processor.decode(&buffer), Some("grüße, peer".to_string()));
    let empty = Buffer { inner: Vec::new() };
    assert_eq!(processor.decode(&empty), Some(String::new()));
}

#[test]
fn processor_rejects_invalid_utf8() {
    let processor = Processor::new();
    assert_eq!(processor.decode(&Buffer { inner: vec![0xff, 0xfe] }), None);
    assert_eq!(processor.decode(&Buffer { inner: vec![b'a', 0xc3] }), None);
    assert_eq!(processor.decode(&Buffer { inner: vec![0xed, 0xa0, 0x80] }), None);
}

#[test]
fn written_text_reaches_processor() {
    let text = "PeerB says \nhi even more!!! ✓";
    let bytes = text.as_bytes();
    let (a, b) = bytes.split_at(5);
    let (b, c) = b.split_at(b.len() - 2);
    let buffer = feed(&[Ok(a), Ok(b), Ok(c), Ok(b"")]).unwrap();
    assert_eq!(Processor::new().decode(&buffer), Some(text.to_string()));
}

#[test]
fn message_types_hold_their_payload() {
    let write = Write { message: b"hello".to_vec() };
    assert_eq!(write.message, b"hello".to_vec());
    let msg = IpcMessage { inner: "hello".to_string() };
    assert_eq!(msg.inner, "hello");
}

#[test]
fn server_serves_accepted_streams_in_order() {
    let server = IpcServer::new();
    let incomings: Vec<Option<Result<&str, ()>>> =
        vec![Some(Ok("first")), Some(Ok("second")), None, Some(Ok("after end"))];
    let mut served = Vec::new();
    for incoming in incomings {
        match server.on_incoming(incoming) {
            ServeStep::Serve(stream) => served.push(stream),
            ServeStep::Stop => break,
        }
    }
    assert_eq!(served, vec!["first", "second"]);
}
