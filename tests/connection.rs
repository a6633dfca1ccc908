use actix_http::h1::Codec;
use actix_http::error::ParseError;
use hello_raw::codec::Frame;
use hello_raw::conn::{Connection, Next, Outcome, Phase};

const ROOT_REQUEST: &[u8] = b"GET / HTTP/1.1\r\nHost: localhost\r\n\r\n";

const NOT_FOUND: &[u8] = b"HTTP/1.1 404 Not Found\r\n\r\n";

const ROOT_HEAD: &[u8] = b"HTTP/1.1 200 OK\r\nServer: Actix RAW_012345678901234567890123456789012345678901234567890123456\r\nContent-Type: text/plain\r\nContent-Length: 13\r\n";

fn in_runtime<F: FnOnce()>(f: F) {
    actix_rt::System::new().block_on(async move { f() });
}

fn connection() -> Connection {
    Connection::new(Codec::default())
}

fn request(path: &str) -> Vec<u8> {
    format!("GET {} HTTP/1.1\r\nHost: localhost\r\n\r\n", path).into_bytes()
}

/// Reads `bytes` in one call, then decodes.
fn feed(conn: &mut Connection, bytes: &[u8]) -> Next {
    assert_eq!(conn.on_data(bytes), Next::Read);
    assert_eq!(conn.on_read_blocked(), Next::Decode);
    assert!(conn.room_to_decode());
    conn.decode_requests()
}

/// Writes everything pending in one call and returns it.
fn drain(conn: &mut Connection) -> Vec<u8> {
    let out = conn.pending_output().to_vec();
    assert_eq!(conn.on_written(out.len()), Next::Wait);
    out
}

fn assert_root_answer(answer: &[u8]) {
    assert_eq!(answer.len(), ROOT_HEAD.len() + 37 + 2 + 13);
    assert_eq!(&answer[..ROOT_HEAD.len()], ROOT_HEAD);
    let date = &answer[ROOT_HEAD.len()..ROOT_HEAD.len() + 37];
    assert_eq!(&date[..6], b"date: ");
    assert_eq!(&date[35..], b"\r\n");
    assert!(date[6..35].iter().all(|b| (32..=126).contains(b)));
    let v = &date[6..35];
    assert!(v[..3].iter().all(|b| b.is_ascii_alphabetic()));
    assert_eq!(&v[3..5], b", ");
    assert!(v[5..7].iter().all(|b| b.is_ascii_digit()));
    assert!(v[8..11].iter().all(|b| b.is_ascii_alphabetic()));
    assert!(v[12..16].iter().all(|b| b.is_ascii_digit()));
    assert_eq!(v[19], b':');
    assert_eq!(v[22], b':');
    assert_eq!(&v[25..], b" GMT");
    assert_eq!(&answer[ROOT_HEAD.len() + 37..], b"\r\nHello, World!");
}

#[test]
fn root_request_gets_hello_world() {
    in_runtime(|| {
        let mut conn = connection();
        assert_eq!(feed(&mut conn, ROOT_REQUEST), Next::Write);
        assert_eq!(conn.phase(), Phase::Writing);
        let out = drain(&mut conn);
        assert_root_answer(&out);
        assert_eq!(conn.phase(), Phase::Reading);
        assert!(conn.pending_output().is_empty());
    });
}

#[test]
fn other_path_gets_not_found() {
    in_runtime(|| {
        let mut conn = connection();
        assert_eq!(feed(&mut conn, &request("/plaintext")), Next::Write);
        assert_eq!(drain(&mut conn), NOT_FOUND.to_vec());
    });
}

#[test]
fn root_with_query_is_still_root() {
    in_runtime(|| {
        let mut conn = connection();
        assert_eq!(feed(&mut conn, &request("/?a=1")), Next::Write);
        assert_root_answer(&drain(&mut conn));
    });
}

#[test]
fn method_is_not_inspected() {
    in_runtime(|| {
        let mut conn = connection();
        let req = b"DELETE /x HTTP/1.1\r\nHost: localhost\r\n\r\n";
        assert_eq!(feed(&mut conn, req), Next::Write);
        assert_eq!(drain(&mut conn), NOT_FOUND.to_vec());
    });
}

#[test]
fn pipelined_requests_are_answered_in_order() {
    in_runtime(|| {
        let mut conn = connection();
        let mut bytes = Vec::new();
        bytes.extend_from_slice(&request("/"));
        bytes.extend_from_slice(&request("/missing"));
        bytes.extend_from_slice(&request("/"));
        bytes.extend_from_slice(&request("/other"));
        assert_eq!(feed(&mut conn, &bytes), Next::Write);
        assert_eq!(conn.input_len(), 0);
        let out = drain(&mut conn);
        let root_len = ROOT_HEAD.len() + 37 + 2 + 13;
        assert_eq!(out.len(), 2 * root_len + 2 * NOT_FOUND.len());
        assert_root_answer(&out[..root_len]);
        assert_eq!(&out[root_len..root_len + NOT_FOUND.len()], NOT_FOUND);
        let third = root_len + NOT_FOUND.len();
        assert_root_answer(&out[third..third + root_len]);
        assert_eq!(&out[third + root_len..], NOT_FOUND);
    });
}

#[test]
fn partial_writes_deliver_every_byte_once() {
    in_runtime(|| {
        let mut conn = connection();
        let mut bytes = request("/");
        bytes.extend_from_slice(&request("/nope"));
        assert_eq!(feed(&mut conn, &bytes), Next::Write);
        let expected = conn.pending_output().to_vec();
        let mut delivered = Vec::new();
        loop {
            let pending = conn.pending_output();
            let n = pending.len().min(7);
            delivered.extend_from_slice(&pending[..n]);
            match conn.on_written(n) {
                Next::Write => {}
                Next::Wait => break,
                other => panic!("unexpected {:?}", other),
            }
        }
        assert_eq!(delivered, expected);
        assert!(conn.pending_output().is_empty());
    });
}

#[test]
fn blocked_write_keeps_the_rest() {
    in_runtime(|| {
        let mut conn = connection();
        assert_eq!(feed(&mut conn, &request("/x")), Next::Write);
        assert_eq!(conn.on_written(10), Next::Write);
        assert_eq!(conn.pending_output(), &NOT_FOUND[10..]);
        assert_eq!(conn.on_write_blocked(), Next::Wait);
        assert_eq!(conn.phase(), Phase::Reading);
        assert_eq!(conn.on_read_blocked(), Next::Decode);
        assert_eq!(conn.decode_requests(), Next::Write);
        assert_eq!(drain(&mut conn), NOT_FOUND[10..].to_vec());
    });
}

#[test]
fn refused_write_fails_the_connection() {
    in_runtime(|| {
        let mut conn = connection();
        assert_eq!(feed(&mut conn, ROOT_REQUEST), Next::Write);
        assert_eq!(conn.on_written(0), Next::Close(Outcome::Failed));
        assert_eq!(conn.phase(), Phase::Closed);
    });
}

#[test]
fn request_split_into_single_bytes_is_answered_once() {
    in_runtime(|| {
        let mut conn = connection();
        let (last, head) = ROOT_REQUEST.split_last().unwrap();
        for b in head {
            assert_eq!(feed(&mut conn, &[*b]), Next::Wait);
            assert!(conn.pending_output().is_empty());
        }
        assert_eq!(feed(&mut conn, &[*last]), Next::Write);
        assert_root_answer(&drain(&mut conn));
        assert_eq!(conn.input_len(), 0);
        assert_eq!(conn.on_read_blocked(), Next::Decode);
        assert_eq!(conn.decode_requests(), Next::Wait);
    });
}

#[test]
fn several_reads_before_decoding_join_up() {
    in_runtime(|| {
        let mut conn = connection();
        let (a, b) = ROOT_REQUEST.split_at(9);
        assert_eq!(conn.on_data(a), Next::Read);
        assert_eq!(conn.on_data(b), Next::Read);
        assert_eq!(conn.input_len(), ROOT_REQUEST.len());
        assert_eq!(conn.on_read_blocked(), Next::Decode);
        assert_eq!(conn.decode_requests(), Next::Write);
        assert_root_answer(&drain(&mut conn));
    });
}

#[test]
fn peer_close_ends_cleanly() {
    in_runtime(|| {
        let mut conn = connection();
        assert_eq!(conn.on_data(&[]), Next::Close(Outcome::Clean));
        assert_eq!(conn.phase(), Phase::Closed);
    });
}

#[test]
fn peer_close_after_an_answer_ends_cleanly() {
    in_runtime(|| {
        let mut conn = connection();
        assert_eq!(feed(&mut conn, ROOT_REQUEST), Next::Write);
        drain(&mut conn);
        assert_eq!(conn.on_data(&[]), Next::Close(Outcome::Clean));
    });
}

#[test]
fn malformed_request_closes_without_answer() {
    in_runtime(|| {
        let mut conn = connection();
        let bad = b"\x01\x02 / HTTP/1.1\r\nHost: localhost\r\n\r\n";
        assert_eq!(feed(&mut conn, bad), Next::Close(Outcome::Failed));
        assert_eq!(conn.phase(), Phase::Closed);
        assert!(conn.pending_output().is_empty());
    });
}

#[test]
fn missing_host_header_is_refused() {
    in_runtime(|| {
        let mut conn = connection();
        let bad = b"GET / HTTP/1.1\r\n\r\n";
        assert_eq!(feed(&mut conn, bad), Next::Close(Outcome::Failed));
    });
}

#[test]
fn request_body_fails_the_connection() {
    in_runtime(|| {
        let mut conn = connection();
        let req = b"POST / HTTP/1.1\r\nHost: localhost\r\nContent-Length: 3\r\n\r\nabc";
        assert_eq!(feed(&mut conn, req), Next::Close(Outcome::Failed));
    });
}

#[test]
fn read_error_fails_the_connection() {
    in_runtime(|| {
        let mut conn = connection();
        assert_eq!(conn.on_io_error(), Next::Close(Outcome::Failed));
        assert_eq!(conn.phase(), Phase::Closed);
    });
}

#[test]
fn write_error_fails_the_connection() {
    in_runtime(|| {
        let mut conn = connection();
        assert_eq!(feed(&mut conn, ROOT_REQUEST), Next::Write);
        assert_eq!(conn.on_io_error(), Next::Close(Outcome::Failed));
    });
}

#[test]
fn interleaved_connections_stay_independent() {
    in_runtime(|| {
        let paths = ["/", "/a", "/", "/b", "/c"];
        let mut conns: Vec<Connection> = paths.iter().map(|_| connection()).collect();
        let reqs: Vec<Vec<u8>> = paths.iter().map(|p| request(p)).collect();
        let longest = reqs.iter().map(|r| r.len()).max().unwrap();
        for i in 0..longest {
            for (c, r) in conns.iter_mut().zip(reqs.iter()) {
                if i < r.len() {
                    let next = feed(c, &r[i..i + 1]);
                    let expect = if i + 1 == r.len() { Next::Write } else { Next::Wait };
                    assert_eq!(next, expect);
                }
            }
        }
        for (c, p) in conns.iter_mut().zip(paths.iter()) {
            let out = drain(c);
            if *p == "/" {
                assert_root_answer(&out);
            } else {
                assert_eq!(out, NOT_FOUND.to_vec());
            }
        }
    });
}

#[test]
fn room_to_decode_holds_for_ordinary_sizes() {
    in_runtime(|| {
        let mut conn = connection();
        assert!(conn.room_to_decode());
        assert_eq!(conn.on_data(&[b'G'; 4096]), Next::Read);
        assert!(conn.room_to_decode());
    });
}

fn decoding(conn: &mut Connection) {
    assert_eq!(conn.on_read_blocked(), Next::Decode);
    assert_eq!(conn.phase(), Phase::Decoding);
}

#[test]
fn decoded_root_request_is_answered_and_decoding_goes_on() {
    in_runtime(|| {
        let mut conn = connection();
        decoding(&mut conn);
        assert_eq!(conn.on_frame(Ok(Some(Frame::Request(b"/".to_vec())))), None);
        assert_eq!(conn.phase(), Phase::Decoding);
        assert_root_answer(conn.pending_output());
    });
}

#[test]
fn decoded_other_request_is_answered_not_found() {
    in_runtime(|| {
        let mut conn = connection();
        decoding(&mut conn);
        assert_eq!(conn.on_frame(Ok(Some(Frame::Request(b"//".to_vec())))), None);
        assert_eq!(conn.pending_output(), NOT_FOUND);
    });
}

#[test]
fn incomplete_input_with_nothing_pending_waits() {
    in_runtime(|| {
        let mut conn = connection();
        decoding(&mut conn);
        assert_eq!(conn.on_frame(Ok(None)), Some(Next::Wait));
        assert_eq!(conn.phase(), Phase::Reading);
    });
}

#[test]
fn incomplete_input_with_answers_pending_writes() {
    in_runtime(|| {
        let mut conn = connection();
        decoding(&mut conn);
        conn.handle_request(&b"/a".to_vec());
        assert_eq!(conn.on_frame(Ok(None)), Some(Next::Write));
        assert_eq!(conn.phase(), Phase::Writing);
        assert_eq!(conn.pending_output(), NOT_FOUND);
    });
}

#[test]
fn decode_error_closes_as_failed() {
    in_runtime(|| {
        let mut conn = connection();
        decoding(&mut conn);
        assert_eq!(conn.on_frame(Err(ParseError::Method)), Some(Next::Close(Outcome::Failed)));
        assert_eq!(conn.phase(), Phase::Closed);
        assert!(conn.pending_output().is_empty());
    });
}

#[test]
fn payload_frame_closes_as_failed() {
    in_runtime(|| {
        let mut conn = connection();
        decoding(&mut conn);
        assert_eq!(conn.on_frame(Ok(Some(Frame::Payload))), Some(Next::Close(Outcome::Failed)));
        assert_eq!(conn.phase(), Phase::Closed);
    });
}

#[test]
fn handle_request_appends_after_earlier_answers() {
    in_runtime(|| {
        let mut conn = connection();
        decoding(&mut conn);
        conn.handle_request(&b"/x".to_vec());
        conn.handle_request(&b"/".to_vec());
        let out = conn.pending_output().to_vec();
        assert_eq!(&out[..NOT_FOUND.len()], NOT_FOUND);
        assert_root_answer(&out[NOT_FOUND.len()..]);
    });
}

#[test]
fn handle_request_answers_in_reading_phase_too() {
    in_runtime(|| {
        let mut conn = connection();
        assert_eq!(conn.phase(), Phase::Reading);
        conn.handle_request(&b"/".to_vec());
        assert_eq!(conn.phase(), Phase::Reading);
        assert_root_answer(conn.pending_output());
    });
}

#[test]
fn first_blank_line_is_right_before_the_body() {
    in_runtime(|| {
        let mut conn = connection();
        assert_eq!(feed(&mut conn, ROOT_REQUEST), Next::Write);
        let out = drain(&mut conn);
        let at = out.windows(4).position(|w| w == b"\r\n\r\n").unwrap();
        assert_eq!(&out[at + 4..], b"Hello, World!");
    });
}

#[test]
fn header_name_too_long_closes_without_answer() {
    in_runtime(|| {
        let mut conn = connection();
        let mut req = b"GET / HTTP/1.1\r\nHost: localhost\r\n".to_vec();
        req.extend(std::iter::repeat(b'x').take(70_000));
        req.extend_from_slice(b": 1\r\n\r\n");
        assert_eq!(feed(&mut conn, &req), Next::Close(Outcome::Failed));
        assert_eq!(conn.phase(), Phase::Closed);
        assert!(conn.pending_output().is_empty());
    });
}
