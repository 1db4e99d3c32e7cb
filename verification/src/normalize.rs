//! A stream with its `event:` lines taken out reads the same where such lines do not count.
use vstd::prelude::*;
use vstd::string::*;
use vstd::utf8::*;

use crate::config::ServerConfigView;
use crate::sse;
use crate::text;
use crate::upstream;
use crate::upstream::UpstreamResponseView;

verus! {

/// The length of the first line, its line feed included.
pub open spec fn line_len<T>(whole: Seq<T>, feed: T) -> nat
    decreases whole.len(),
{
    if whole.len() == 0 {
        0
    } else if whole[0] == feed {
        1
    } else {
        1 + line_len(whole.skip(1), feed)
    }
}

proof fn lemma_line_len<T>(whole: Seq<T>, feed: T)
    ensures
        line_len(whole, feed) <= whole.len(),
        whole.len() > 0 ==> line_len(whole, feed) > 0,
        forall|i: int| 0 <= i < line_len(whole, feed) - 1 ==> #[trigger] whole[i] != feed,
        line_len(whole, feed) < whole.len() ==> whole[line_len(whole, feed) - 1] == feed,
    decreases whole.len(),
{
    if whole.len() > 0 && whole[0] != feed {
        let rest = whole.skip(1);
        lemma_line_len(rest, feed);
        assert forall|i: int| 0 <= i < line_len(whole, feed) - 1 implies #[trigger] whole[i]
            != feed by {
            if i > 0 {
                assert(rest[i - 1] == whole[i]);
            }
        }
        if line_len(rest, feed) < rest.len() {
            assert(rest[line_len(rest, feed) - 1] == whole[line_len(whole, feed) - 1]);
        }
    }
}

/// What is left when the lines that begin with `mark` are taken out, each with its line feed.
pub open spec fn lines_out<T>(whole: Seq<T>, feed: T, mark: Seq<T>) -> Seq<T>
    decreases whole.len(),
    via lines_out_decreases::<T>
{
    if whole.len() == 0 {
        Seq::empty()
    } else {
        let end = line_len(whole, feed) as int;
        let rest = lines_out(whole.skip(end), feed, mark);
        if mark.is_prefix_of(whole) {
            rest
        } else {
            whole.take(end) + rest
        }
    }
}

#[via_fn]
proof fn lines_out_decreases<T>(whole: Seq<T>, feed: T, mark: Seq<T>) {
    lemma_line_len(whole, feed);
}

/// A body with its `event:` lines taken out.
pub open spec fn event_lines_out(bytes: Seq<u8>) -> Seq<u8> {
    lines_out(bytes, 10u8, encode_utf8("event:"@))
}

/// The encoding of a text is that of its parts.
proof fn lemma_encode_concat(a: Seq<char>, b: Seq<char>)
    ensures
        encode_utf8(a + b) == encode_utf8(a) + encode_utf8(b),
    decreases a.len(),
{
    if a.len() == 0 {
        assert(a + b =~= b);
        assert(encode_utf8(a) + encode_utf8(b) =~= encode_utf8(b));
    } else {
        lemma_encode_concat(a.drop_first(), b);
        assert((a + b).drop_first() =~= a.drop_first() + b);
        assert(encode_utf8(a + b) =~= encode_utf8(a) + encode_utf8(b));
    }
}

/// A character of ASCII is encoded by its own byte, any other one by bytes above those.
proof fn lemma_encode_char(c: char)
    ensures
        encode_scalar(c as u32).len() > 0,
        c <= '\u{7f}' ==> encode_scalar(c as u32).len() == 1 && encode_scalar(c as u32)[0] as u32
            == c as u32,
        c > '\u{7f}' ==> forall|i: int|
            0 <= i < encode_scalar(c as u32).len() ==> #[trigger] encode_scalar(c as u32)[i]
                >= 0x80,
{
    let s = c as u32;
    char_is_scalar(c);
    assert(s <= 0x7f ==> ((s & 0x7F) as u8) as u32 == s) by (bit_vector);
    assert((0xC0u8 | ((s >> 6) & 0x1F) as u8) >= 0x80) by (bit_vector);
    assert((0xE0u8 | ((s >> 12) & 0x0F) as u8) >= 0x80) by (bit_vector);
    assert((0xF0u8 | ((s >> 18) & 0x7) as u8) >= 0x80) by (bit_vector);
    assert((0x80u8 | (s & 0x3F) as u8) >= 0x80) by (bit_vector);
    assert((0x80u8 | ((s >> 6) & 0x3F) as u8) >= 0x80) by (bit_vector);
    assert((0x80u8 | ((s >> 12) & 0x3F) as u8) >= 0x80) by (bit_vector);
}

/// A line goes on over what holds no line feed.
proof fn lemma_line_len_past<T>(before: Seq<T>, rest: Seq<T>, feed: T)
    requires
        forall|i: int| 0 <= i < before.len() ==> #[trigger] before[i] != feed,
    ensures
        line_len(before + rest, feed) == before.len() + line_len(rest, feed),
    decreases before.len(),
{
    if before.len() == 0 {
        assert(before + rest =~= rest);
    } else {
        assert((before + rest).skip(1) =~= before.skip(1) + rest);
        assert forall|i: int| 0 <= i < before.skip(1).len() implies #[trigger] before.skip(1)[i]
            != feed by {
            assert(before.skip(1)[i] == before[i + 1]);
        }
        lemma_line_len_past(before.skip(1), rest, feed);
    }
}

/// The first line of an encoded text is the encoding of the text's first line.
proof fn lemma_line_len_encoded(whole: Seq<char>)
    ensures
        line_len(encode_utf8(whole), 10u8) == encode_utf8(
            whole.take(line_len(whole, '\n') as int),
        ).len(),
    decreases whole.len(),
{
    lemma_line_len(whole, '\n');
    if whole.len() == 0 {
        assert(whole.take(0) =~= whole);
    } else {
        let c = whole[0];
        let rest = whole.drop_first();
        let first = encode_scalar(c as u32);
        let line = whole.take(line_len(whole, '\n') as int);
        lemma_encode_char(c);
        assert(line[0] == c);
        if c == '\n' {
            assert(first[0] == 10u8);
            assert(encode_utf8(whole)[0] == 10u8);
            assert(line.drop_first() =~= Seq::empty());
            assert(encode_utf8(line.drop_first()).len() == 0);
            assert(encode_utf8(line).len() == 1);
        } else {
            assert forall|i: int| 0 <= i < first.len() implies #[trigger] first[i] != 10u8 by {
                char_u32_cast(c, c as u32);
                assert(c as u32 != 10);
            }
            lemma_line_len_past(first, encode_utf8(rest), 10u8);
            assert(whole.skip(1) =~= rest);
            lemma_line_len_encoded(rest);
            assert(line.drop_first() =~= rest.take(line_len(rest, '\n') as int));
        }
    }
}

/// An encoded text begins with an encoded mark of ASCII exactly if the text begins with the mark.
proof fn lemma_prefix_encoded(mark: Seq<char>, whole: Seq<char>)
    requires
        is_ascii_chars(mark),
    ensures
        encode_utf8(mark).is_prefix_of(encode_utf8(whole)) <==> mark.is_prefix_of(whole),
    decreases mark.len(),
{
    if mark.len() > 0 {
        lemma_encode_char(mark[0]);
        let m = mark.drop_first();
        if whole.len() == 0 {
            assert(encode_utf8(mark).len() > 0);
        } else {
            let w = whole.drop_first();
            lemma_encode_char(whole[0]);
            assert forall|i: int| 0 <= i < m.len() implies '\0' <= #[trigger] m[i] <= '\u{7f}' by {
                assert(m[i] == mark[i + 1]);
            }
            lemma_prefix_encoded(m, w);
            let em = encode_utf8(mark);
            let ew = encode_utf8(whole);
            assert(em =~= encode_scalar(mark[0] as u32) + encode_utf8(m));
            assert(em.skip(1) =~= encode_utf8(m));
            assert(mark =~= seq![mark[0]] + m);
            assert(whole =~= seq![whole[0]] + w);
            if mark[0] == whole[0] {
                assert(ew =~= encode_scalar(mark[0] as u32) + encode_utf8(w));
                assert(ew.skip(1) =~= encode_utf8(w));
                lemma_prefix_cons(em, ew);
                lemma_prefix_cons(mark, whole);
                assert(mark.skip(1) =~= m);
                assert(whole.skip(1) =~= w);
            } else {
                assert(em[0] as u32 == mark[0] as u32);
                assert(ew[0] == encode_scalar(whole[0] as u32)[0]);
                char_u32_cast(mark[0], mark[0] as u32);
                char_u32_cast(whole[0], whole[0] as u32);
                assert(ew[0] != em[0]);
                if em.is_prefix_of(ew) {
                    assert(ew.take(em.len() as int)[0] == ew[0]);
                }
                if mark.is_prefix_of(whole) {
                    assert(whole.take(mark.len() as int)[0] == whole[0]);
                }
            }
        }
    } else {
        assert(mark =~= whole.take(0));
        assert(encode_utf8(mark) =~= encode_utf8(whole).take(0));
    }
}

proof fn lemma_prefix_cons<T>(a: Seq<T>, b: Seq<T>)
    requires
        a.len() > 0,
        b.len() > 0,
        a[0] == b[0],
    ensures
        a.is_prefix_of(b) <==> a.skip(1).is_prefix_of(b.skip(1)),
{
    if a.is_prefix_of(b) {
        assert(a.skip(1) =~= b.skip(1).take(a.skip(1).len() as int));
    }
    if a.skip(1).is_prefix_of(b.skip(1)) {
        assert forall|i: int| 0 <= i < a.len() implies a[i] == #[trigger] b[i] by {
            if i > 0 {
                assert(a.skip(1)[i - 1] == a[i]);
                assert(b.skip(1).take(a.skip(1).len() as int)[i - 1] == b[i]);
            }
        }
        assert(a =~= b.take(a.len() as int));
    }
}

/// Lines can be taken out of a text before it is encoded, or after.
proof fn lemma_lines_out_encoded(whole: Seq<char>, mark: Seq<char>)
    requires
        is_ascii_chars(mark),
    ensures
        lines_out(encode_utf8(whole), 10u8, encode_utf8(mark)) == encode_utf8(
            lines_out(whole, '\n', mark),
        ),
    decreases whole.len(),
{
    if whole.len() > 0 {
        lemma_line_len(whole, '\n');
        let end = line_len(whole, '\n') as int;
        let line = whole.take(end);
        let rest = whole.skip(end);
        lemma_encode_char(whole[0]);
        lemma_line_len_encoded(whole);
        assert(whole =~= line + rest);
        lemma_encode_concat(line, rest);
        let bytes = encode_utf8(whole);
        let cut = encode_utf8(line).len() as int;
        assert(bytes.take(cut) =~= encode_utf8(line));
        assert(bytes.skip(cut) =~= encode_utf8(rest));
        lemma_prefix_encoded(mark, whole);
        lemma_lines_out_encoded(rest, mark);
        lemma_encode_concat(line, lines_out(rest, '\n', mark));
    }
}

/// The lines of a text from which lines were taken out are the others.
proof fn lemma_lines_out_lines(whole: Seq<char>)
    ensures
        text::lines(lines_out(whole, '\n', "event:"@)) == sse::without_event_lines(
            text::lines(whole),
        ),
    decreases whole.len(),
{
    let mark = "event:"@;
    let keep = |line: Seq<char>| !"event:"@.is_prefix_of(line);
    reveal_strlit("event:");
    reveal(Seq::filter);
    lemma_line_len(whole, '\n');
    if whole.len() == 0 {
        lemma_no_feed(whole);
        lemma_no_feed(Seq::empty());
        assert(sse::without_event_lines(text::lines(whole)) =~= Seq::empty());
    } else {
        let end = line_len(whole, '\n') as int;
        let rest = whole.skip(end);
        let left = lines_out(rest, '\n', mark);
        lemma_lines_out_lines(rest);
        if whole[end - 1] == '\n' {
            let line = text::without_cr(whole.take(end - 1));
            sse::lemma_first_line(whole, end - 1);
            assert(text::lines(whole) == seq![line] + text::lines(rest));
            lemma_mark_of_line(whole, end - 1);
            Seq::filter_distributes_over_add(seq![line], text::lines(rest), keep);
            lemma_filter_one(line, keep);
            if !mark.is_prefix_of(whole) {
                let cut = whole.take(end) + left;
                assert forall|i: int| 0 <= i < end - 1 implies cut[i] != '\n' by {
                    assert(cut[i] == whole[i]);
                }
                assert(cut[end - 1] == '\n');
                sse::lemma_first_line(cut, end - 1);
                assert(cut.take(end - 1) =~= whole.take(end - 1));
                assert(cut.skip(end) =~= left);
            } else {
                assert(sse::without_event_lines(text::lines(whole)) =~= sse::without_event_lines(
                    text::lines(rest),
                ));
            }
        } else {
            assert forall|i: int| 0 <= i < whole.len() implies #[trigger] whole[i] != '\n' by {}
            lemma_no_feed(whole);
            lemma_no_feed(Seq::empty());
            assert(rest =~= Seq::empty());
            assert(left =~= Seq::empty());
            lemma_filter_one(whole, keep);
            assert(whole.take(end) + left =~= whole);
        }
    }
}

/// A text without a line feed is one line, or none.
proof fn lemma_no_feed(whole: Seq<char>)
    requires
        forall|i: int| 0 <= i < whole.len() ==> #[trigger] whole[i] != '\n',
    ensures
        text::lines(whole) == if whole.len() == 0 {
            Seq::empty()
        } else {
            seq![whole]
        },
{
    let feed = seq!['\n'];
    text::lemma_find_from(whole, feed, 0);
    assert forall|i: int| 0 <= i implies !text::occurs_at(whole, feed, i) by {
        if text::occurs_at(whole, feed, i) {
            assert(whole.subrange(i, i + 1)[0] == whole[i]);
        }
    }
}

proof fn lemma_filter_one(line: Seq<char>, keep: spec_fn(Seq<char>) -> bool)
    ensures
        seq![line].filter(keep) == if keep(line) {
            seq![line]
        } else {
            Seq::empty()
        },
{
    reveal(Seq::filter);
    assert(seq![line].drop_last() =~= Seq::empty());
    assert(Seq::<Seq<char>>::empty().filter(keep) =~= Seq::empty());
    if keep(line) {
        assert(seq![line].filter(keep) =~= seq![line]);
    }
}

/// A line begins with `event:` exactly if the text does that it begins.
proof fn lemma_mark_of_line(whole: Seq<char>, at: int)
    requires
        0 <= at < whole.len(),
        whole[at] == '\n',
        forall|i: int| 0 <= i < at ==> #[trigger] whole[i] != '\n',
    ensures
        "event:"@.is_prefix_of(text::without_cr(whole.take(at))) <==> "event:"@.is_prefix_of(whole),
{
    let mark = "event:"@;
    reveal_strlit("event:");
    assert(mark.len() == 6 && mark[5] == ':');
    let line = text::without_cr(whole.take(at));
    if mark.is_prefix_of(whole) {
        assert forall|i: int| 0 <= i < 6 implies whole[i] == #[trigger] mark[i] by {
            assert(whole.take(6)[i] == whole[i]);
        }
        if at < 6 {
            assert(mark[at] == '\n');
        }
        assert(whole[5] == ':');
        assert(line.len() >= 6);
        assert(line.take(6) =~= mark);
    }
    if mark.is_prefix_of(line) {
        assert forall|i: int| 0 <= i < 6 implies whole[i] == #[trigger] mark[i] by {
            assert(line.take(6)[i] == line[i]);
        }
        assert(whole.take(6) =~= mark);
    }
}

/// Where `event:` lines do not count, a stream holds what it holds with these lines taken out:
/// unless nothing is left of it then, or the only bytes are gone that were not UTF-8.
pub proof fn law_event_lines_do_not_count(content_type: Option<Seq<char>>, bytes: Seq<u8>)
    requires
        content_type matches Some(kind) && text::contains(kind, "text/event-stream"@),
        valid_utf8(event_lines_out(bytes)) ==> valid_utf8(bytes),
    ensures
        sse::body_answer(true, content_type, event_lines_out(bytes)) == sse::body_answer(
            true,
            content_type,
            bytes,
        ),
{
    let mark = "event:"@;
    reveal_strlit("event:");
    assert(is_ascii_chars(mark));
    if valid_utf8(bytes) {
        let whole = decode_utf8(bytes);
        decode_utf8_encode_utf8(bytes);
        lemma_lines_out_encoded(whole, mark);
        let left = lines_out(whole, '\n', mark);
        assert(event_lines_out(bytes) == encode_utf8(left));
        encode_utf8_valid_utf8(left);
        encode_utf8_decode_utf8(left);
        lemma_lines_out_lines(whole);
        lemma_twice(text::lines(whole));
    }
}

/// Lines that are taken out cannot be taken out again.
proof fn lemma_twice(lines: Seq<Seq<char>>)
    ensures
        sse::without_event_lines(sse::without_event_lines(lines)) == sse::without_event_lines(
            lines,
        ),
    decreases lines.len(),
{
    reveal(Seq::filter);
    let keep = |line: Seq<char>| !"event:"@.is_prefix_of(line);
    if lines.len() > 0 {
        let shorter = lines.drop_last();
        lemma_twice(shorter);
        let once = sse::without_event_lines(shorter);
        if keep(lines.last()) {
            assert(once.push(lines.last()).drop_last() =~= once);
        }
    }
}

/// An answer of a server whose `event:` lines do not count brings what it brings with these lines
/// taken out of its stream: unless nothing is left of it then, or the only bytes are gone that were
/// not UTF-8.
pub proof fn law_event_lines_do_not_change_a_reply(
    server: ServerConfigView,
    response: UpstreamResponseView,
)
    requires
        server.normalize_sse_events,
        200 <= response.status < 300,
        response.content_type matches Some(kind) && text::contains(kind, "text/event-stream"@),
        event_lines_out(response.body).len() == 0 ==> response.body.len() == 0,
        valid_utf8(event_lines_out(response.body)) ==> valid_utf8(response.body),
    ensures
        upstream::reply_of(
            server,
            UpstreamResponseView { body: event_lines_out(response.body), ..response },
        ) == upstream::reply_of(server, response),
{
    law_event_lines_do_not_count(response.content_type, response.body);
}

/// Where `event:` lines do not count, a stream holds what a stream holds in which they count and
/// none stands: the one with these lines taken out.
pub proof fn law_ignoring_event_lines_is_reading_without_them(
    content_type: Option<Seq<char>>,
    bytes: Seq<u8>,
)
    requires
        content_type matches Some(kind) && text::contains(kind, "text/event-stream"@),
        valid_utf8(bytes),
    ensures
        sse::body_answer(true, content_type, bytes) == sse::body_answer(
            false,
            content_type,
            event_lines_out(bytes),
        ),
{
    let mark = "event:"@;
    reveal_strlit("event:");
    assert(is_ascii_chars(mark));
    let whole = decode_utf8(bytes);
    decode_utf8_encode_utf8(bytes);
    lemma_lines_out_encoded(whole, mark);
    let left = lines_out(whole, '\n', mark);
    assert(event_lines_out(bytes) == encode_utf8(left));
    encode_utf8_valid_utf8(left);
    encode_utf8_decode_utf8(left);
    lemma_lines_out_lines(whole);
}

/// Whether `event:` lines count makes no difference to a body that is no stream.
pub proof fn law_plain_bodies_are_not_normalized(
    content_type: Option<Seq<char>>,
    bytes: Seq<u8>,
)
    requires
        content_type matches Some(kind) ==> !text::contains(kind, "text/event-stream"@),
        valid_utf8(bytes),
        !"event:"@.is_prefix_of(text::trim_start(decode_utf8(bytes))),
        !"data:"@.is_prefix_of(text::trim_start(decode_utf8(bytes))),
    ensures
        sse::body_answer(true, content_type, bytes) == sse::body_answer(false, content_type, bytes),
{
}

} // verus!
