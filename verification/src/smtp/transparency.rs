//! Dot-stuffing: what a client does to a payload, and why the framer gives
//! the payload back unchanged.

use super::bytes::{CR, DOT, LF};
use super::command::{ends_with_crlf, ClientCommandView, ParseFault};
use super::framer::{
    crlf_at, crlf_position, end_of_data, first_line_len, lemma_crlf_position,
    lemma_crlf_position_is, scan, unstuff, FramerView,
};
use vstd::prelude::*;

verus! {

/// A payload line as the client sends it: with one more dot in front where it
/// starts with a dot.
pub open spec fn stuff_line(line: Seq<u8>) -> Seq<u8> {
    if line.len() > 0 && line[0] == DOT {
        seq![DOT] + line
    } else {
        line
    }
}

/// A payload as the client sends it, each of its lines stuffed.
pub open spec fn dot_stuff(payload: Seq<u8>) -> Seq<u8>
    decreases payload.len(),
{
    let n = first_line_len(payload);
    if n <= 0 || n >= payload.len() {
        stuff_line(payload)
    } else {
        stuff_line(payload.take(n)) + dot_stuff(payload.skip(n))
    }
}

/// What follows the first line of `s` does not move its end.
pub proof fn lemma_first_line_prefix(s: Seq<u8>, more: Seq<u8>)
    requires
        first_line_len(s) > 0,
    ensures
        first_line_len(s + more) == first_line_len(s),
{
    lemma_crlf_position(s);
    let p = crlf_position(s);
    assert(crlf_at(s + more, p));
    assert forall|j: int| 0 <= j < p implies !crlf_at(s + more, j) by {
        assert(crlf_at(s + more, j) == crlf_at(s, j));
    }
    lemma_crlf_position_is(s + more, p);
}

/// The first line of a stuffed line ends where the line ends, if the line
/// itself ends with its first CR LF.
proof fn lemma_stuffed_line(line: Seq<u8>)
    requires
        first_line_len(line) == line.len(),
        line.len() > 0,
    ensures
        first_line_len(stuff_line(line)) == stuff_line(line).len(),
        stuff_line(line) != end_of_data(),
        unstuff(stuff_line(line)) == line,
{
    lemma_crlf_position(line);
    let stuffed = stuff_line(line);
    if line[0] == DOT {
        let p = crlf_position(line);
        assert(crlf_at(stuffed, p + 1));
        assert forall|j: int| 0 <= j < p + 1 implies !crlf_at(stuffed, j) by {
            if j > 0 {
                assert(crlf_at(stuffed, j) == crlf_at(line, j - 1));
            }
        }
        lemma_crlf_position_is(stuffed, p + 1);
        assert(stuffed.drop_first() =~= line);
    }
}

/// What follows the first line of a payload is empty or ends with CR LF where
/// the payload does.
proof fn lemma_rest_of_lines(payload: Seq<u8>)
    requires
        ends_with_crlf(payload),
    ensures
        0 < first_line_len(payload) <= payload.len(),
        first_line_len(payload.take(first_line_len(payload))) == first_line_len(payload),
        first_line_len(payload) < payload.len() ==> ends_with_crlf(
            payload.skip(first_line_len(payload)),
        ),
{
    lemma_crlf_position(payload);
    let p = crlf_position(payload);
    let last = payload.len() - 2;
    if p > last {
        assert(crlf_at(payload, last));
    }
    let n = p + 2;
    let line = payload.take(n);
    assert(crlf_at(line, p));
    assert forall|j: int| 0 <= j < p implies !crlf_at(line, j) by {
        assert(crlf_at(line, j) == crlf_at(payload, j));
    }
    lemma_crlf_position_is(line, p);
    if n < payload.len() {
        let rest = payload.skip(n);
        if rest.len() == 1 {
            assert(payload[last] == payload[p + 1]);
        }
    }
}

/// Read after `acc`, a stuffed payload followed by the closing line gives
/// `acc` followed by the payload, and leaves what follows the closing line.
proof fn lemma_round_trip_from(payload: Seq<u8>, acc: Seq<u8>, tail: Seq<u8>)
    requires
        payload.len() == 0 || ends_with_crlf(payload),
    ensures
        scan(FramerView { data: true, buffer: dot_stuff(payload) + end_of_data() + tail, payload: acc })
            == (
            FramerView { data: false, buffer: tail, payload: Seq::empty() },
            Some(Ok::<ClientCommandView, ParseFault>(ClientCommandView::MailInput(acc + payload))),
        ),
    decreases payload.len(),
{
    let buffer = dot_stuff(payload) + end_of_data() + tail;
    let closing = end_of_data();
    assert(crlf_at(closing, 1));
    assert(!crlf_at(closing, 0));
    lemma_crlf_position_is(closing, 1);
    if payload.len() == 0 {
        assert(dot_stuff(payload) =~= Seq::<u8>::empty());
        assert(buffer =~= closing + tail);
        lemma_first_line_prefix(closing, tail);
        assert(buffer.take(3) =~= closing);
        assert(buffer.skip(3) =~= tail);
        assert(acc + payload =~= acc);
    } else {
        lemma_rest_of_lines(payload);
        let n = first_line_len(payload);
        let line = payload.take(n);
        let rest = payload.skip(n);
        let stuffed = stuff_line(line);
        lemma_stuffed_line(line);
        let m = stuffed.len() as int;
        if n < payload.len() {
            assert(buffer =~= stuffed + (dot_stuff(rest) + closing + tail));
        } else {
            assert(line =~= payload);
            assert(rest =~= Seq::<u8>::empty());
            assert(dot_stuff(rest) =~= Seq::<u8>::empty());
            assert(buffer =~= stuffed + (dot_stuff(rest) + closing + tail));
        }
        lemma_first_line_prefix(stuffed, dot_stuff(rest) + closing + tail);
        assert(buffer.take(m) =~= stuffed);
        assert(buffer.skip(m) =~= dot_stuff(rest) + closing + tail);
        lemma_round_trip_from(rest, acc + line, tail);
        assert(acc + line + rest =~= acc + payload);
    }
}

/// Transparency of the payload: a payload made of whole lines, stuffed and
/// closed by the line `.`, comes out of the framer as it was, and leaves the
/// framer ready for the next command.
pub proof fn lemma_dot_stuffing_round_trip(payload: Seq<u8>)
    requires
        payload.len() == 0 || ends_with_crlf(payload),
    ensures
        scan(
            FramerView {
                data: true,
                buffer: dot_stuff(payload) + end_of_data(),
                payload: Seq::empty(),
            },
        ) == (
            FramerView { data: false, buffer: Seq::empty(), payload: Seq::empty() },
            Some(Ok::<ClientCommandView, ParseFault>(ClientCommandView::MailInput(payload))),
        ),
{
    lemma_round_trip_from(payload, Seq::empty(), Seq::empty());
    assert(dot_stuff(payload) + end_of_data() + Seq::<u8>::empty() =~= dot_stuff(payload)
        + end_of_data());
    assert(Seq::<u8>::empty() + payload =~= payload);
}

/// The framer does not depend on how the transport cuts the stream: where it
/// yields nothing yet, going on with more bytes gives what reading all the
/// bytes at once would have given.
pub proof fn lemma_scan_resumes(f: FramerView, more: Seq<u8>)
    requires
        scan(f).1 is None,
    ensures
        scan(FramerView { buffer: scan(f).0.buffer + more, ..scan(f).0 }) == scan(
            FramerView { buffer: f.buffer + more, ..f },
        ),
    decreases f.buffer.len(),
{
    let n = first_line_len(f.buffer);
    lemma_crlf_position(f.buffer);
    if n > 0 {
        let line = f.buffer.take(n);
        let rest = f.buffer.skip(n);
        let next = FramerView { data: true, buffer: rest, payload: f.payload + unstuff(line) };
        lemma_scan_resumes(next, more);
        lemma_first_line_prefix(f.buffer, more);
        assert((f.buffer + more).take(n) =~= line);
        assert((f.buffer + more).skip(n) =~= rest + more);
    }
}

/// Inside a payload the line `.` ends it, and the line `..` adds the line `.`
/// to it.
pub proof fn lemma_dot_lines(acc: Seq<u8>, tail: Seq<u8>)
    ensures
        scan(FramerView { data: true, buffer: end_of_data() + tail, payload: acc }) == (
            FramerView { data: false, buffer: tail, payload: Seq::empty() },
            Some(Ok::<ClientCommandView, ParseFault>(ClientCommandView::MailInput(acc))),
        ),
        scan(FramerView { data: true, buffer: seq![DOT, DOT, CR, LF] + tail, payload: acc })
            == scan(FramerView { data: true, buffer: tail, payload: acc + seq![DOT, CR, LF] }),
{
    let closing = end_of_data();
    assert(crlf_at(closing, 1));
    assert(!crlf_at(closing, 0));
    lemma_crlf_position_is(closing, 1);
    lemma_first_line_prefix(closing, tail);
    assert((closing + tail).take(3) =~= closing);
    assert((closing + tail).skip(3) =~= tail);
    let doubled = seq![DOT, DOT, CR, LF];
    assert(crlf_at(doubled, 2));
    assert(!crlf_at(doubled, 0));
    assert(!crlf_at(doubled, 1));
    lemma_crlf_position_is(doubled, 2);
    lemma_first_line_prefix(doubled, tail);
    assert((doubled + tail).take(4) =~= doubled);
    assert((doubled + tail).skip(4) =~= tail);
    assert(unstuff(doubled) =~= seq![DOT, CR, LF]);
}

} // verus!
