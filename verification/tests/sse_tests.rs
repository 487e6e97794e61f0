use auth2api::sse::SseLineBuffer;

fn collect(buffer: &mut SseLineBuffer, chunk: &[u8]) -> Vec<String> {
    buffer.push(chunk)
}

#[test]
fn emits_each_data_line_and_ignores_other_fields() {
    let mut buffer = SseLineBuffer::new();
    let got = collect(&mut buffer, b"event: message\ndata: {\"a\":1}\n\ndata:{\"b\":2}\n");
    assert_eq!(got, vec!["{\"a\":1}", "{\"b\":2}"]);
}

#[test]
fn reassembles_lines_split_across_chunks() {
    let mut buffer = SseLineBuffer::new();
    assert!(collect(&mut buffer, b"data: {\"te").is_empty());
    assert_eq!(collect(&mut buffer, b"xt\":\"hi\"}\n"), vec!["{\"text\":\"hi\"}"]);
}

#[test]
fn handles_chunk_boundary_inside_multibyte_char() {
    let payload = "data: {\"text\":\"中文\"}\n".as_bytes();
    let split = payload.iter().position(|&b| b > 0x7f).unwrap() + 1;
    let mut buffer = SseLineBuffer::new();
    assert!(collect(&mut buffer, &payload[..split]).is_empty());
    assert_eq!(collect(&mut buffer, &payload[split..]), vec!["{\"text\":\"中文\"}"]);
}

#[test]
fn strips_crlf_line_endings() {
    let mut buffer = SseLineBuffer::new();
    assert_eq!(collect(&mut buffer, b"data: [DONE]\r\n"), vec!["[DONE]"]);
}

#[test]
fn any_split_of_a_body_gives_the_same_payloads() {
    let body = "event: x\ndata: {\"a\":\"中\"}\r\n: comment\ndata:plain\n\ndata: last\n".as_bytes();
    let mut whole = SseLineBuffer::new();
    let expected = whole.push(body);
    assert_eq!(expected, vec!["{\"a\":\"中\"}", "plain", "last"]);
    for split in 0..=body.len() {
        let mut parts = SseLineBuffer::new();
        let mut got = parts.push(&body[..split]);
        got.extend(parts.push(&body[split..]));
        assert_eq!(got, expected, "split at {split}");
    }
}

#[test]
fn an_unfinished_line_waits_for_its_newline() {
    let mut buffer = SseLineBuffer::new();
    assert!(buffer.push(b"data: partial").is_empty());
    assert_eq!(buffer.pending_len(), 13);
    assert_eq!(buffer.push(b"\n"), vec!["partial"]);
    assert_eq!(buffer.pending_len(), 0);
}
