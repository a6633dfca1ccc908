//! The bytes of the two responses the server sends, and how a run of
//! responses is laid out in the output stream.
use vstd::prelude::*;
use crate::codec::is_date_line;
use vstd::string::*;

verus! {

/// Status line of the answer to the root path.
pub const STATUS_OK: &'static str = "HTTP/1.1 200 OK\r\n";

/// Fixed server header.
pub const SERVER: &'static str = "Server: Actix RAW_012345678901234567890123456789012345678901234567890123456\r\n";

/// Content type of the root answer.
pub const CONTENT_TYPE: &'static str = "Content-Type: text/plain\r\n";

/// Content length of the root answer; it matches `BODY`.
pub const CONTENT_LENGTH: &'static str = "Content-Length: 13\r\n";

/// Status line of the answer to every other path.
pub const STATUS_NOT_FOUND: &'static str = "HTTP/1.1 404 Not Found\r\n";

/// The empty line that ends a header block.
pub const HDR_END: &'static str = "\r\n";

/// Body of the root answer.
pub const BODY: &'static str = "Hello, World!";

/// The header lines of the root answer that come before the date.
pub open spec fn ok_head() -> Seq<u8> {
    STATUS_OK.spec_bytes() + SERVER.spec_bytes() + CONTENT_TYPE.spec_bytes()
        + CONTENT_LENGTH.spec_bytes()
}

/// The only path that is answered with a body.
pub open spec fn is_root(path: Seq<u8>) -> bool {
    path == seq![47u8]
}

/// The bytes sent for a request on `path`, given the date header line that
/// was current when it was answered (only the root answer carries one).
pub open spec fn reply(path: Seq<u8>, date: Seq<u8>) -> Seq<u8> {
    if is_root(path) {
        ok_head() + date + HDR_END.spec_bytes() + BODY.spec_bytes()
    } else {
        STATUS_NOT_FOUND.spec_bytes() + HDR_END.spec_bytes()
    }
}

/// The answers to the requests on `paths`, one after the other in request
/// order, the `i`-th one carrying `dates[i]`.
pub open spec fn replies(paths: Seq<Seq<u8>>, dates: Seq<Seq<u8>>) -> Seq<u8>
    decreases paths.len(),
{
    if paths.len() == 0 {
        Seq::empty()
    } else {
        replies(paths.drop_last(), dates.drop_last()) + reply(paths.last(), dates.last())
    }
}

/// Answering one more request appends exactly its answer after the earlier
/// ones, and leaves those untouched.
pub proof fn replies_push(paths: Seq<Seq<u8>>, dates: Seq<Seq<u8>>, path: Seq<u8>, date: Seq<u8>)
    requires
        paths.len() == dates.len(),
    ensures
        replies(paths.push(path), dates.push(date)) == replies(paths, dates) + reply(path, date),
{
    assert(paths.push(path).drop_last() =~= paths);
    assert(dates.push(date).drop_last() =~= dates);
}

/// A run of pipelined requests is answered by one answer per request, in
/// request order: the answers to the first `k` requests come first, followed
/// by the answers to the rest.
pub proof fn replies_in_request_order(paths: Seq<Seq<u8>>, dates: Seq<Seq<u8>>, k: int)
    requires
        paths.len() == dates.len(),
        0 <= k <= paths.len(),
    ensures
        replies(paths, dates) == replies(paths.take(k), dates.take(k)) + replies(
            paths.skip(k),
            dates.skip(k),
        ),
    decreases paths.len(),
{
    if k == paths.len() {
        assert(paths.take(k) =~= paths);
        assert(dates.take(k) =~= dates);
        assert(paths.skip(k).len() == 0);
        assert(replies(paths.skip(k), dates.skip(k)) =~= Seq::<u8>::empty());
        assert(replies(paths, dates) + Seq::<u8>::empty() =~= replies(paths, dates));
    } else {
        let n = paths.len();
        replies_in_request_order(paths.drop_last(), dates.drop_last(), k);
        assert(paths.drop_last().take(k) =~= paths.take(k));
        assert(dates.drop_last().take(k) =~= dates.take(k));
        assert(paths.skip(k).drop_last() =~= paths.drop_last().skip(k));
        assert(dates.skip(k).drop_last() =~= dates.drop_last().skip(k));
        assert(paths.skip(k).last() == paths.last());
        assert(dates.skip(k).last() == dates.last());
        assert(replies(paths, dates) =~= replies(paths.take(k), dates.take(k)) + replies(
            paths.skip(k),
            dates.skip(k),
        ));
    }
}

pub(crate) proof fn literal_lengths()
    ensures
        STATUS_OK.spec_bytes().len() == 17,
        CONTENT_TYPE.spec_bytes().len() == 26,
        CONTENT_LENGTH.spec_bytes().len() == 20,
        SERVER.spec_bytes().len() == 77,
        STATUS_NOT_FOUND.spec_bytes().len() == 24,
        HDR_END.spec_bytes() == seq![13u8, 10u8],
        BODY.spec_bytes().len() == 13,
{
    reveal_strlit("HTTP/1.1 200 OK\r\n");
    reveal_strlit("Server: Actix RAW_012345678901234567890123456789012345678901234567890123456\r\n");
    reveal_strlit("Content-Type: text/plain\r\n");
    reveal_strlit("Content-Length: 13\r\n");
    reveal_strlit("HTTP/1.1 404 Not Found\r\n");
    reveal_strlit("\r\n");
    reveal_strlit("Hello, World!");
    broadcast use is_ascii_spec_bytes;

    assert(is_ascii(STATUS_OK));
    assert(is_ascii(SERVER));
    assert(is_ascii(CONTENT_TYPE));
    assert(is_ascii(CONTENT_LENGTH));
    assert(is_ascii(STATUS_NOT_FOUND));
    assert(is_ascii(HDR_END));
    assert(is_ascii(BODY));
    assert(HDR_END.spec_bytes() =~= seq![13u8, 10u8]);
}

/// The answer to the root path: status 200, a `text/plain` content type, a
/// content length of 13, and after the empty line that ends the headers, the
/// 13 bytes `Hello, World!` and nothing else.
pub proof fn root_is_answered_hello(date: Seq<u8>)
    ensures
        ({
            let r = reply(seq![47u8], date);
            &&& r.subrange(0, 17) == STATUS_OK.spec_bytes()
            &&& r.subrange(94, 120) == CONTENT_TYPE.spec_bytes()
            &&& r.subrange(120, 140) == CONTENT_LENGTH.spec_bytes()
            &&& r.len() == 140 + date.len() + 15
            &&& r.subrange(r.len() - 13, r.len() as int) == BODY.spec_bytes()
            &&& BODY.spec_bytes().len() == 13
            &&& r.subrange(r.len() - 15, r.len() - 13) == seq![13u8, 10u8]
        }),
{
    literal_lengths();
    let r = reply(seq![47u8], date);
    assert(r.subrange(0, 17) =~= STATUS_OK.spec_bytes());
    assert(r.subrange(94, 120) =~= CONTENT_TYPE.spec_bytes());
    assert(r.subrange(120, 140) =~= CONTENT_LENGTH.spec_bytes());
    assert(r.subrange(r.len() - 13, r.len() as int) =~= BODY.spec_bytes());
    assert(r.subrange(r.len() - 15, r.len() - 13) =~= HDR_END.spec_bytes());
}

/// The answer to any path other than the root: the 404 status line, then the
/// empty line that ends the headers, and no body.
pub proof fn other_paths_are_not_found(path: Seq<u8>, date: Seq<u8>)
    requires
        path != seq![47u8],
    ensures
        reply(path, date) == STATUS_NOT_FOUND.spec_bytes() + seq![13u8, 10u8],
{
    literal_lengths();
}

/// In each header line of the root head, the only CR is the one that ends
/// it, and no line starts with a CR.
proof fn head_line_breaks()
    ensures
        forall|j: int| 0 <= j < 17 && #[trigger] STATUS_OK.spec_bytes()[j] == 13u8 ==> j == 15,
        forall|j: int| 0 <= j < 77 && #[trigger] SERVER.spec_bytes()[j] == 13u8 ==> j == 75,
        forall|j: int|
            0 <= j < 26 && #[trigger] CONTENT_TYPE.spec_bytes()[j] == 13u8 ==> j == 24,
        forall|j: int|
            0 <= j < 20 && #[trigger] CONTENT_LENGTH.spec_bytes()[j] == 13u8 ==> j == 18,
        SERVER.spec_bytes()[0] != 13u8,
        CONTENT_TYPE.spec_bytes()[0] != 13u8,
        CONTENT_LENGTH.spec_bytes()[0] != 13u8,
{
    literal_lengths();
    reveal_strlit("HTTP/1.1 200 OK\r\n");
    reveal_strlit("Server: Actix RAW_012345678901234567890123456789012345678901234567890123456\r\n");
    reveal_strlit("Content-Type: text/plain\r\n");
    reveal_strlit("Content-Length: 13\r\n");
    broadcast use is_ascii_spec_bytes;

    assert(is_ascii(STATUS_OK));
    assert(is_ascii(SERVER));
    assert(is_ascii(CONTENT_TYPE));
    assert(is_ascii(CONTENT_LENGTH));
    assert forall|j: int| 0 <= j < 17 && #[trigger] STATUS_OK.spec_bytes()[j] == 13u8 implies j
        == 15 by {
        assert(STATUS_OK.spec_bytes()[j] == STATUS_OK@[j] as u8);
    }
    assert forall|j: int| 0 <= j < 77 && #[trigger] SERVER.spec_bytes()[j] == 13u8 implies j
        == 75 by {
        assert(SERVER.spec_bytes()[j] == SERVER@[j] as u8);
    }
    assert forall|j: int| 0 <= j < 26 && #[trigger] CONTENT_TYPE.spec_bytes()[j] == 13u8 implies j
        == 24 by {
        assert(CONTENT_TYPE.spec_bytes()[j] == CONTENT_TYPE@[j] as u8);
    }
    assert forall|j: int| 0 <= j < 20 && #[trigger] CONTENT_LENGTH.spec_bytes()[j] == 13u8 implies j
        == 18 by {
        assert(CONTENT_LENGTH.spec_bytes()[j] == CONTENT_LENGTH@[j] as u8);
    }
    assert(SERVER.spec_bytes()[0] == SERVER@[0] as u8);
    assert(CONTENT_TYPE.spec_bytes()[0] == CONTENT_TYPE@[0] as u8);
    assert(CONTENT_LENGTH.spec_bytes()[0] == CONTENT_LENGTH@[0] as u8);
}

/// Read as HTTP reads it, the root answer's header block ends at its first
/// empty line, and what follows it is exactly the 13 bytes `Hello, World!`:
/// no CRLF CRLF occurs earlier, whatever date the header carries.
pub proof fn root_body_follows_first_blank_line(date: Seq<u8>)
    requires
        is_date_line(date),
    ensures
        ({
            let r = reply(seq![47u8], date);
            let blank = seq![13u8, 10u8, 13u8, 10u8];
            &&& r.len() == 192
            &&& r.subrange(175, 179) == blank
            &&& forall|i: int| 0 <= i < 175 ==> #[trigger] r.subrange(i, i + 4) != blank
            &&& r.subrange(179, 192) == BODY.spec_bytes()
        }),
{
    literal_lengths();
    head_line_breaks();
    let r = reply(seq![47u8], date);
    let blank = seq![13u8, 10u8, 13u8, 10u8];
    let h = ok_head();
    assert(r =~= h + date + HDR_END.spec_bytes() + BODY.spec_bytes());
    assert(date[35] == 13u8 && date[36] == 10u8) by {
        assert(date.subrange(35, 37)[0] == date[35]);
        assert(date.subrange(35, 37)[1] == date[36]);
    }
    assert(r.subrange(175, 179) =~= blank);
    assert(r.subrange(179, 192) =~= BODY.spec_bytes());
    assert forall|i: int| 0 <= i < 175 implies #[trigger] r.subrange(i, i + 4) != blank by {
        if r.subrange(i, i + 4) == blank {
            assert(r[i] == r.subrange(i, i + 4)[0]);
            assert(r[i + 2] == r.subrange(i, i + 4)[2]);
            assert(r[i] == 13u8 && r[i + 2] == 13u8);
            if i < 17 {
                assert(r[i] == STATUS_OK.spec_bytes()[i]);
                assert(r[i + 2] == SERVER.spec_bytes()[0]);
            } else if i < 94 {
                assert(r[i] == SERVER.spec_bytes()[i - 17]);
                if i == 92 {
                    assert(r[i + 2] == CONTENT_TYPE.spec_bytes()[0]);
                }
            } else if i < 120 {
                assert(r[i] == CONTENT_TYPE.spec_bytes()[i - 94]);
                if i == 118 {
                    assert(r[i + 2] == CONTENT_LENGTH.spec_bytes()[0]);
                }
            } else if i < 140 {
                assert(r[i] == CONTENT_LENGTH.spec_bytes()[i - 120]);
                if i == 138 {
                    assert(r[i + 2] == date[0]);
                    assert(date[0] == date.subrange(0, 6)[0]);
                }
            } else if i < 146 {
                assert(r[i] == date[i - 140]);
                assert(date[i - 140] == date.subrange(0, 6)[i - 140]);
            } else {
                assert(r[i] == date[i - 140]);
            }
        }
    }
}

/// No answer is longer than this, for a date line of 37 bytes.
pub const MAX_REPLY: usize = 256;

} // verus!
