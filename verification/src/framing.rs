//! Where the body begins on the wire. A reader of a response finds the body
//! behind the first blank line; this module states when that reading is
//! right, and proves it.

use vstd::prelude::*;
use vstd::utf8::*;

use crate::decimal::{decimal, digit_char};
use crate::headers::{lemma_position, position, upserted, Field};
use crate::response::{
    header_block, header_line, line_end, status_line, transmitted_body, wire_bytes, wire_head,
    ResponseView,
};

verus! {

/// Whether `byte` is a carriage return or a line feed.
pub open spec fn is_line_break(byte: u8) -> bool {
    byte == 0x0du8 || byte == 0x0au8
}

/// Whether `bytes` holds no carriage return and no line feed.
pub open spec fn plain_bytes(bytes: Seq<u8>) -> bool {
    forall|i: int| 0 <= i < bytes.len() ==> !is_line_break(#[trigger] bytes[i])
}

/// Whether `text` holds no carriage return and no line feed.
pub open spec fn plain_text(text: Seq<char>) -> bool {
    forall|i: int| 0 <= i < text.len() ==> #[trigger] text[i] != '\r' && text[i] != '\n'
}

/// Whether no name and no value of `fields` holds a line break.
pub open spec fn plain_fields(fields: Seq<Field>) -> bool {
    forall|i: int|
        0 <= i < fields.len() ==> plain_text((#[trigger] fields[i]).0) && plain_text(fields[i].1)
}

/// Whether the head of `response` holds no line break but those that end
/// its lines: none in the version, the status message, or a header field.
pub open spec fn plain_head(response: ResponseView) -> bool {
    &&& plain_text(response.version)
    &&& plain_text(response.status_msg)
    &&& plain_fields(response.headers)
}

/// Whether a blank line stands at index `i` of `bytes`: a line end that is
/// followed at once by another line end.
pub open spec fn blank_line_at(bytes: Seq<u8>, i: int) -> bool {
    &&& 0 <= i
    &&& i + 4 <= bytes.len()
    &&& bytes[i] == 0x0du8
    &&& bytes[i + 1] == 0x0au8
    &&& bytes[i + 2] == 0x0du8
    &&& bytes[i + 3] == 0x0au8
}

/// The index of the first blank line of `bytes`, or `bytes.len()` where
/// there is none.
pub open spec fn first_blank_line(bytes: Seq<u8>) -> int
    decreases bytes.len(),
{
    if bytes.len() == 0 || blank_line_at(bytes, 0) {
        0
    } else {
        1 + first_blank_line(bytes.drop_first())
    }
}

/// Whether `head` is made of lines that are not empty and hold no line
/// break of their own: it holds no blank line, and where it is not empty it
/// ends with a line end that follows a byte of another kind.
pub open spec fn whole_lines(head: Seq<u8>) -> bool {
    &&& forall|j: int| !#[trigger] blank_line_at(head, j)
    &&& head.len() > 0 ==> {
        &&& head.len() >= 3
        &&& !is_line_break(head[head.len() - 3])
        &&& head[head.len() - 2] == 0x0du8
        &&& head[head.len() - 1] == 0x0au8
    }
}

/// A blank line at `p` with none before it is the first blank line.
pub proof fn lemma_first_blank_line_is(bytes: Seq<u8>, p: int)
    requires
        blank_line_at(bytes, p),
        forall|j: int| 0 <= j < p ==> !#[trigger] blank_line_at(bytes, j),
    ensures
        first_blank_line(bytes) == p,
    decreases p,
{
    if p > 0 {
        let rest = bytes.drop_first();
        assert(!blank_line_at(bytes, 0));
        assert(blank_line_at(rest, p - 1));
        assert forall|j: int| 0 <= j < p - 1 implies !#[trigger] blank_line_at(rest, j) by {
            assert(!blank_line_at(bytes, j + 1));
        }
        lemma_first_blank_line_is(rest, p - 1);
    }
}

/// Every byte of a UTF-8 encoding of more than one byte is 0x80 or above,
/// and the encoding of one byte is the scalar itself.
proof fn lemma_scalar_bytes(c: u32)
    by (bit_vector)
    ensures
        has_width_1_encoding(c) ==> leading_byte_width_1(c) as u32 == c,
        leading_byte_width_2(c) >= 0x80u8,
        leading_byte_width_3(c) >= 0x80u8,
        leading_byte_width_4(c) >= 0x80u8,
        last_continuation_byte(c) >= 0x80u8,
        second_last_continuation_byte(c) >= 0x80u8,
        third_last_continuation_byte(c) >= 0x80u8,
{
}

/// A character that is no line break is encoded to bytes that are no line
/// breaks.
proof fn lemma_plain_char_encodes_plain(c: char)
    requires
        c != '\r',
        c != '\n',
    ensures
        plain_bytes(encode_scalar(c as u32)),
{
    let scalar = c as u32;
    let bytes = encode_scalar(scalar);
    lemma_scalar_bytes(scalar);
    assert('\r' as u32 == 0x0d && '\n' as u32 == 0x0a);
    assert(scalar != 0x0d && scalar != 0x0a);
    assert forall|i: int| 0 <= i < bytes.len() implies !is_line_break(#[trigger] bytes[i]) by {
        if has_width_1_encoding(scalar) {
            assert(bytes[0] == leading_byte_width_1(scalar));
        } else if has_width_2_encoding(scalar) {
            assert(bytes[0] == leading_byte_width_2(scalar));
            assert(bytes[1] == last_continuation_byte(scalar));
        } else if has_width_3_encoding(scalar) {
            assert(bytes[0] == leading_byte_width_3(scalar));
            assert(bytes[1] == second_last_continuation_byte(scalar));
            assert(bytes[2] == last_continuation_byte(scalar));
        } else {
            assert(bytes[0] == leading_byte_width_4(scalar));
            assert(bytes[1] == third_last_continuation_byte(scalar));
            assert(bytes[2] == second_last_continuation_byte(scalar));
            assert(bytes[3] == last_continuation_byte(scalar));
        }
    }
}

/// Text without line breaks is encoded to bytes without line breaks.
pub proof fn lemma_plain_text_encodes_plain(text: Seq<char>)
    requires
        plain_text(text),
    ensures
        plain_bytes(encode_utf8(text)),
    decreases text.len(),
{
    if text.len() > 0 {
        let first = encode_scalar(text[0] as u32);
        let rest = text.drop_first();
        assert(text[0] != '\r' && text[0] != '\n');
        lemma_plain_char_encodes_plain(text[0]);
        assert forall|i: int| 0 <= i < rest.len() implies #[trigger] rest[i] != '\r' && rest[i]
            != '\n' by {
            assert(rest[i] == text[i + 1]);
        }
        lemma_plain_text_encodes_plain(rest);
        let tail = encode_utf8(rest);
        assert forall|i: int| 0 <= i < (first + tail).len() implies !is_line_break(
            #[trigger] (first + tail)[i],
        ) by {
            if i < first.len() {
                assert((first + tail)[i] == first[i]);
            } else {
                assert((first + tail)[i] == tail[i - first.len()]);
            }
        }
    }
}

/// Two runs of bytes without line breaks make one such run.
pub proof fn lemma_plain_bytes_concat(a: Seq<u8>, b: Seq<u8>)
    requires
        plain_bytes(a),
        plain_bytes(b),
    ensures
        plain_bytes(a + b),
{
    assert forall|i: int| 0 <= i < (a + b).len() implies !is_line_break(#[trigger] (a + b)[i]) by {
        if i < a.len() {
            assert((a + b)[i] == a[i]);
        } else {
            assert((a + b)[i] == b[i - a.len()]);
        }
    }
}

/// A decimal numeral holds no line break.
pub proof fn lemma_decimal_is_plain(n: nat)
    ensures
        plain_text(decimal(n)),
    decreases n,
{
    if n >= 10 {
        lemma_decimal_is_plain(n / 10);
        let head = decimal(n / 10);
        let all = decimal(n);
        assert forall|i: int| 0 <= i < all.len() implies #[trigger] all[i] != '\r' && all[i]
            != '\n' by {
            if i < head.len() {
                assert(all[i] == head[i]);
            } else {
                assert(all[i] == digit_char((n % 10) as int));
            }
        }
    }
}

/// Fields without line breaks stay so when a name without line breaks is
/// given a value without line breaks.
pub proof fn lemma_upserted_stays_plain(fields: Seq<Field>, name: Seq<char>, value: Seq<char>)
    requires
        plain_fields(fields),
        plain_text(name),
        plain_text(value),
    ensures
        plain_fields(upserted(fields, name, value)),
{
    let after = upserted(fields, name, value);
    let p = position(fields, name);
    lemma_position(fields, name);
    assert forall|i: int| 0 <= i < after.len() implies plain_text((#[trigger] after[i]).0)
        && plain_text(after[i].1) by {
        if i != p {
            assert(after[i] == fields[i]);
        }
    }
}

/// A line that is not empty and holds no line break, with its line end,
/// extends whole lines to whole lines.
pub proof fn lemma_line_extends_whole_lines(head: Seq<u8>, line: Seq<u8>)
    requires
        whole_lines(head),
        plain_bytes(line),
        line.len() > 0,
    ensures
        whole_lines(head + line + line_end()),
{
    let longer = head + line + line_end();
    let n = head.len() as int;
    let m = line.len() as int;
    assert(longer.len() == n + m + 2);
    assert(longer[n + m] == 0x0du8);
    assert(longer[n + m + 1] == 0x0au8);
    assert(longer[n + m - 1] == line[m - 1]);
    assert forall|j: int| !#[trigger] blank_line_at(longer, j) by {
        if 0 <= j && j + 4 <= longer.len() {
            if j + 4 <= n {
                assert(longer[j] == head[j]);
                assert(longer[j + 1] == head[j + 1]);
                assert(longer[j + 2] == head[j + 2]);
                assert(longer[j + 3] == head[j + 3]);
                assert(!blank_line_at(head, j));
            } else {
                // The four bytes reach into the new line, whose content
                // holds no line break.
                let k = if j >= n {
                    j
                } else {
                    n
                };
                assert(n <= k < n + m);
                assert(j <= k <= j + 3);
                assert(longer[k] == line[k - n]);
                assert(!is_line_break(longer[k]));
            }
        }
    }
}

/// The line of a header field without line breaks extends whole lines to
/// whole lines.
pub proof fn lemma_header_line_extends_whole_lines(head: Seq<u8>, field: Field)
    requires
        whole_lines(head),
        plain_text(field.0),
        plain_text(field.1),
    ensures
        whole_lines(head + header_line(field)),
{
    let separator = seq![0x3au8, 0x20u8];
    let line = encode_utf8(field.0) + separator + encode_utf8(field.1);
    lemma_plain_text_encodes_plain(field.0);
    lemma_plain_text_encodes_plain(field.1);
    assert(plain_bytes(separator));
    lemma_plain_bytes_concat(encode_utf8(field.0), separator);
    lemma_plain_bytes_concat(encode_utf8(field.0) + separator, encode_utf8(field.1));
    lemma_line_extends_whole_lines(head, line);
    assert(head + header_line(field) =~= head + line + line_end());
}

/// The lines of header fields without line breaks extend whole lines to
/// whole lines.
pub proof fn lemma_header_block_extends_whole_lines(head: Seq<u8>, fields: Seq<Field>)
    requires
        whole_lines(head),
        plain_fields(fields),
    ensures
        whole_lines(head + header_block(fields)),
    decreases fields.len(),
{
    if fields.len() == 0 {
        assert(head + header_block(fields) =~= head);
    } else {
        let before = fields.drop_last();
        assert forall|i: int| 0 <= i < before.len() implies plain_text((#[trigger] before[i]).0)
            && plain_text(before[i].1) by {
            assert(before[i] == fields[i]);
        }
        lemma_header_block_extends_whole_lines(head, before);
        assert(plain_text(fields[fields.len() - 1].0) && plain_text(fields[fields.len() - 1].1));
        lemma_header_line_extends_whole_lines(head + header_block(before), fields.last());
        assert(head + header_block(fields) =~= head + header_block(before) + header_line(
            fields.last(),
        ));
    }
}

/// The status line of a response whose version and status message hold no
/// line break is one whole line.
pub proof fn lemma_status_line_is_whole(response: ResponseView)
    requires
        plain_text(response.version),
        plain_text(response.status_msg),
    ensures
        whole_lines(status_line(response)),
        status_line(response).len() > 0,
{
    let space = seq![0x20u8];
    let version = encode_utf8(response.version);
    let code = encode_utf8(decimal(response.status_code as nat));
    let message = encode_utf8(response.status_msg);
    lemma_plain_text_encodes_plain(response.version);
    lemma_decimal_is_plain(response.status_code as nat);
    lemma_plain_text_encodes_plain(decimal(response.status_code as nat));
    lemma_plain_text_encodes_plain(response.status_msg);
    assert(plain_bytes(space));
    lemma_plain_bytes_concat(version, space);
    lemma_plain_bytes_concat(version + space, code);
    lemma_plain_bytes_concat(version + space + code, space);
    lemma_plain_bytes_concat(version + space + code + space, message);
    let line = version + space + code + space + message;
    let nothing = Seq::<u8>::empty();
    assert(whole_lines(nothing));
    lemma_line_extends_whole_lines(nothing, line);
    assert(status_line(response) =~= nothing + line + line_end());
}

/// Where the head of a response holds no line break but those that end its
/// lines, the first blank line on the wire is the one that ends the head:
/// the body is what stands behind it, whatever bytes the body holds.
pub proof fn lemma_body_follows_first_blank_line(response: ResponseView)
    requires
        plain_head(response),
    ensures
        first_blank_line(wire_bytes(response)) + 4 == wire_head(response).len(),
        wire_bytes(response).skip(first_blank_line(wire_bytes(response)) + 4) == transmitted_body(
            response,
        ),
        wire_bytes(response).len() - (first_blank_line(wire_bytes(response)) + 4)
            == transmitted_body(response).len(),
{
    let lines = status_line(response) + header_block(response.headers);
    let out = wire_bytes(response);
    lemma_status_line_is_whole(response);
    lemma_header_block_extends_whole_lines(status_line(response), response.headers);
    let n = lines.len() as int;
    let p = n - 2;
    assert(out =~= lines + line_end() + transmitted_body(response));
    assert(wire_head(response) =~= lines + line_end());
    assert(out[p] == lines[n - 2]);
    assert(out[p + 1] == lines[n - 1]);
    assert(out[p + 2] == 0x0du8);
    assert(out[p + 3] == 0x0au8);
    assert(blank_line_at(out, p));
    assert forall|j: int| 0 <= j < p implies !#[trigger] blank_line_at(out, j) by {
        if j + 4 <= n {
            assert(out[j] == lines[j]);
            assert(out[j + 1] == lines[j + 1]);
            assert(out[j + 2] == lines[j + 2]);
            assert(out[j + 3] == lines[j + 3]);
            assert(!blank_line_at(lines, j));
        } else {
            assert(j == n - 3);
            assert(out[j] == lines[n - 3]);
        }
    }
    lemma_first_blank_line_is(out, p);
    assert(out.skip(p + 4) =~= transmitted_body(response));
}

} // verus!
