use papr::ai::{AiEvent, Provider, MAX_SSE_BUFFER};
use papr::error::AppResult;
use papr::sse::{ChatOutcome, SseStream, StreamAction, StreamInput};

/// Feeds the chunks to a stream whose frontend takes `taken` events.
fn consume(chunks: &[&[u8]], taken: usize) -> (Vec<String>, AppResult<ChatOutcome>) {
    let mut stream = SseStream::new(Provider::OpenAi);
    let mut sent: Vec<String> = Vec::new();
    let mut next = 0;
    let mut action = StreamAction::Read;
    loop {
        let input = match action {
            StreamAction::Read => {
                if next < chunks.len() {
                    next += 1;
                    StreamInput::Chunk(chunks[next - 1].to_vec())
                } else {
                    StreamInput::End
                }
            }
            StreamAction::Send(event) => {
                if sent.len() == taken {
                    StreamInput::Refused
                } else {
                    match event {
                        AiEvent::Delta(t) => sent.push(t),
                        _ => panic!("only deltas are streamed"),
                    }
                    StreamInput::Delivered
                }
            }
            StreamAction::Stop(result) => return (sent, result),
        };
        action = stream.step(input);
    }
}

fn line(content: &str) -> String {
    format!("data: {{\"choices\":[{{\"delta\":{{\"content\":\"{}\"}}}}]}}\n", content)
}

#[test]
fn deltas_are_sent_in_turn_and_gathered() {
    let text = format!(": hello\n{}\n{}data: [DONE]\n", line("one "), line("two"));
    let (sent, result) = consume(&[text.as_bytes()], 9);
    let outcome = result.unwrap_or_else(|_| panic!("a complete response"));
    assert_eq!(sent, vec!["one ", "two"]);
    assert_eq!(outcome.text, "one two");
    assert!(outcome.completed);
}

#[test]
fn chunk_boundaries_do_not_matter() {
    let text = format!("{}{}", line("caf\u{e9}"), line("\u{754c}"));
    let bytes = text.as_bytes();
    for size in [1usize, 2, 3, 7, 50] {
        let chunks: Vec<&[u8]> = bytes.chunks(size).collect();
        let (sent, result) = consume(&chunks, 9);
        assert_eq!(sent, vec!["caf\u{e9}", "\u{754c}"]);
        assert_eq!(result.unwrap_or_else(|_| panic!("complete")).text, "caf\u{e9}\u{754c}");
    }
}

#[test]
fn the_last_line_needs_no_newline() {
    let text = line("!");
    let (sent, result) = consume(&[text.trim_end().as_bytes()], 9);
    let outcome = result.unwrap_or_else(|_| panic!("complete"));
    assert_eq!(sent, vec!["!"]);
    assert_eq!(outcome.text, "!");
    assert!(outcome.completed);
}

#[test]
fn a_dropped_channel_leaves_a_fragment() {
    let text = format!("{}{}", line("a"), line("b"));
    let (sent, result) = consume(&[text.as_bytes()], 1);
    let outcome = result.unwrap_or_else(|_| panic!("a fragment"));
    assert_eq!(sent, vec!["a"]);
    assert_eq!(outcome.text, "ab");
    assert!(!outcome.completed);
}

#[test]
fn a_provider_error_ends_the_stream() {
    let text = format!("{}data: {{\"error\":{{\"message\":\"overloaded\"}}}}\n{}", line("a"), line("b"));
    let (sent, result) = consume(&[text.as_bytes()], 9);
    assert_eq!(sent, vec!["a"]);
    match result {
        Ok(_) => panic!("the error must end the stream"),
        Err(e) => assert!(e.message().contains("overloaded")),
    }
}

#[test]
fn a_stream_without_newlines_is_cut_off() {
    let blob = vec![b'x'; MAX_SSE_BUFFER + 1];
    let (sent, result) = consume(&[&blob], 9);
    assert!(sent.is_empty());
    match result {
        Ok(_) => panic!("the buffer must not grow without bound"),
        Err(e) => assert_eq!(e.message(), "AI stream error: response is not server-sent events"),
    }
}

#[test]
fn malformed_bytes_are_decoded_with_replacements() {
    let mut bytes = b"data: {\"choices\":[{\"delta\":{\"content\":\"".to_vec();
    bytes.push(0xff);
    bytes.extend_from_slice(b"\"}}]}\n");
    let (sent, _) = consume(&[&bytes], 9);
    assert_eq!(sent, vec!["\u{fffd}"]);
}

#[test]
fn a_closing_newline_makes_no_difference() {
    let mut broken = line("a").into_bytes();
    broken.extend_from_slice(b"data: {\"choices\":[{\"delta\":{\"content\":\"\xff\xe7\"}}]}");
    let cases = vec![line("x").into_bytes(), b"data: [DONE]".to_vec(), broken, Vec::new()];
    for bytes in cases {
        let mut longer = bytes.clone();
        longer.push(b'\n');
        let (sent, result) = consume(&[&bytes], 9);
        let (sent_too, result_too) = consume(&[&longer], 9);
        assert_eq!(sent, sent_too);
        let outcome = result.unwrap_or_else(|_| panic!("complete"));
        let outcome_too = result_too.unwrap_or_else(|_| panic!("complete"));
        assert_eq!((outcome.text, outcome.completed), (outcome_too.text, outcome_too.completed));
    }
}

#[test]
fn an_error_is_the_same_however_the_stream_is_cut() {
    let text = format!("{}data: {{\"error\":{{\"message\":\"no\"}}}}\n{}", line("a"), line("b"));
    for size in [1usize, 9, 500] {
        let chunks: Vec<&[u8]> = text.as_bytes().chunks(size).collect();
        let (sent, result) = consume(&chunks, 9);
        assert_eq!(sent, vec!["a"]);
        match result {
            Ok(_) => panic!("the error must end the stream"),
            Err(e) => assert_eq!(e.message(), "AI stream error: no"),
        }
    }
}
