//! The client side of queries: newline-delimited queries in, framed responses
//! out.
use vstd::prelude::*;
use vstd::utf8::*;

use crate::std_text::{lossy_text, utf8_lossy};
use crate::text::{trim, trimmed};

verus! {

/// The byte that ends a line.
pub const NEWLINE: u8 = 10;

/// The first offset from `i` on that holds a newline.
pub open spec fn newline_from(bytes: Seq<u8>, i: int) -> Option<int>
    decreases bytes.len() - i,
{
    if i >= bytes.len() {
        None
    } else if bytes[i] == NEWLINE {
        Some(i)
    } else {
        newline_from(bytes, i + 1)
    }
}

/// The text of a line: its bytes as text, without the white space around them.
pub open spec fn line_text(bytes: Seq<u8>) -> Seq<char> {
    trimmed(lossy_text(bytes))
}

/// Extracts one newline-terminated line from `buf`, removing it (and the
/// newline) if a complete one has arrived, leaving a partial line for the next
/// read -- mirrors how the FIX framing pulls exactly one complete message out of
/// an accumulating buffer at a time.
pub fn extract_line(buf: &mut Vec<u8>) -> (r: Option<String>)
    ensures
        match r {
            Some(line) => {
                &&& newline_from(old(buf)@, 0) matches Some(pos)
                &&& line@ == line_text(old(buf)@.take(pos))
                &&& valid_utf8(old(buf)@.take(pos)) ==> line@ == trimmed(decode_utf8(old(buf)@.take(pos)))
                &&& final(buf)@ == old(buf)@.skip(pos + 1)
            },
            None => newline_from(old(buf)@, 0) is None && final(buf)@ == old(buf)@,
        },
{
    let mut pos: usize = 0;
    while pos < buf.len() && buf[pos] != NEWLINE
        invariant
            pos <= buf@.len(),
            buf@ == old(buf)@,
            newline_from(old(buf)@, 0) == newline_from(old(buf)@, pos as int),
        decreases buf@.len() - pos,
    {
        pos = pos + 1;
    }
    if pos == buf.len() {
        return None;
    }
    let mut rest: Vec<u8> = buf.split_off(pos + 1);
    let text: String = utf8_lossy(&buf.as_slice()[0..pos]);
    assert(buf@.subrange(0, pos as int) =~= old(buf)@.take(pos as int));
    std::mem::swap(buf, &mut rest);
    assert(buf@ =~= old(buf)@.skip(pos + 1));
    Some(trim(text.as_str()))
}

/// The first line that is not empty, and what follows it.
pub open spec fn next_query_of(bytes: Seq<u8>) -> (Option<Seq<char>>, Seq<u8>)
    decreases bytes.len(),
{
    match newline_from(bytes, 0) {
        None => (None, bytes),
        Some(pos) => if 0 <= pos < bytes.len() {
            let text = line_text(bytes.take(pos));
            if text.len() > 0 {
                (Some(text), bytes.skip(pos + 1))
            } else {
                next_query_of(bytes.skip(pos + 1))
            }
        } else {
            (None, bytes)
        },
    }
}

proof fn lemma_newline_bounds(bytes: Seq<u8>, i: int)
    requires
        0 <= i <= bytes.len(),
    ensures
        newline_from(bytes, i) matches Some(pos) ==> i <= pos < bytes.len(),
    decreases bytes.len() - i,
{
    if i < bytes.len() {
        lemma_newline_bounds(bytes, i + 1);
    }
}

/// The next query that has arrived in full. Empty lines are passed over.
pub fn next_query(buf: &mut Vec<u8>) -> (r: Option<String>)
    ensures
        match r {
            Some(query) => next_query_of(old(buf)@).0 == Some(query@),
            None => next_query_of(old(buf)@).0 is None,
        },
        final(buf)@ == next_query_of(old(buf)@).1,
{
    loop
        invariant
            next_query_of(buf@) == next_query_of(old(buf)@),
        decreases buf@.len(),
    {
        proof {
            lemma_newline_bounds(buf@, 0);
        }
        match extract_line(buf) {
            Some(line) => {
                if line.as_str().unicode_len() > 0 {
                    return Some(line);
                }
            },
            None => {
                return None;
            },
        }
    }
}

/// The response to a query: its rows or its error, and the line that ends it.
pub open spec fn response_text(result: Result<Seq<char>, Seq<char>>) -> Seq<char> {
    match result {
        Ok(csv) => csv + "--END--\n"@,
        Err(message) => "ERROR: "@ + message + "\n"@ + "--END--\n"@,
    }
}

/// What is written back for a query: CSV text, or an error, terminated by a
/// `--END--` line so a simple client can tell where one response ends.
pub fn response(result: Result<String, String>) -> (r: String)
    ensures
        r@ == response_text(
            match result {
                Ok(csv) => Ok(csv@),
                Err(message) => Err(message@),
            },
        ),
{
    match result {
        Ok(csv) => {
            let mut r: String = csv;
            r.append("--END--\n");
            r
        },
        Err(message) => {
            let mut r: String = "ERROR: ".to_owned();
            r.append(message.as_str());
            r.append("\n");
            r.append("--END--\n");
            r
        },
    }
}

/// Bytes that arrive later do not change a line that has arrived in full.
pub proof fn arrived_line_stays_the_same(bytes: Seq<u8>, later: Seq<u8>)
    requires
        newline_from(bytes, 0) is Some,
    ensures
        newline_from(bytes + later, 0) == newline_from(bytes, 0),
        newline_from(bytes, 0) matches Some(pos) ==> (bytes + later).take(pos) == bytes.take(pos) && (bytes
            + later).skip(pos + 1) == bytes.skip(pos + 1) + later,
{
    lemma_newline_stays(bytes, later, 0);
    lemma_newline_bounds(bytes, 0);
    let pos = newline_from(bytes, 0)->Some_0;
    assert((bytes + later).take(pos) =~= bytes.take(pos));
    assert((bytes + later).skip(pos + 1) =~= bytes.skip(pos + 1) + later);
}

/// It does not matter how a stream of lines is cut into reads: what the first
/// part gives is what the whole gives first, and the rest is left for later.
pub proof fn reads_of_lines_can_be_cut_anywhere(first: Seq<u8>, second: Seq<u8>)
    ensures
        next_query_of(first + second) == (match next_query_of(first) {
            (Some(query), rest) => (Some(query), rest + second),
            (None, rest) => next_query_of(rest + second),
        }),
    decreases first.len(),
{
    lemma_newline_bounds(first, 0);
    match newline_from(first, 0) {
        Some(pos) => {
            arrived_line_stays_the_same(first, second);
            if line_text(first.take(pos)).len() == 0 {
                reads_of_lines_can_be_cut_anywhere(first.skip(pos + 1), second);
            }
        },
        None => {},
    }
}

proof fn lemma_newline_stays(bytes: Seq<u8>, later: Seq<u8>, i: int)
    requires
        0 <= i <= bytes.len(),
        newline_from(bytes, i) is Some,
    ensures
        newline_from(bytes + later, i) == newline_from(bytes, i),
    decreases bytes.len() - i,
{
    if i < bytes.len() {
        assert((bytes + later)[i] == bytes[i]);
        if bytes[i] != NEWLINE {
            lemma_newline_stays(bytes, later, i + 1);
        }
    }
}

} // verus!
