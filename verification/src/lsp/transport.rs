//! How language-server messages are framed on the byte stream: each body
//! follows a header of `Name: value` lines that a blank line ends, and the
//! `Content-Length` field gives the body's length in bytes.

use vstd::prelude::*;
use vstd::utf8::*;
use crate::text::{chars_of, decimal_text, decimal_string, push_str, trim, trimmed};
use crate::lsp::{all_digits, digits_value, digits_upto};
use crate::json::{JsonValue, json_text, json_bytes};

verus! {

/// The header that announces a body of `n` bytes.
pub open spec fn frame_header(n: nat) -> Seq<char> {
    "Content-Length: "@ + decimal_text(n) + "\r\n\r\n"@
}

/// A message body framed for the stream: its header, then the body.
pub fn frame_message(payload: &[u8]) -> (r: Vec<u8>)
    ensures
        r@ == encode_utf8(frame_header(payload@.len() as nat)) + payload@,
{
    let mut header = "Content-Length: ".to_owned();
    let n = decimal_string(payload.len());
    push_str(&mut header, n.as_str());
    push_str(&mut header, "\r\n\r\n");
    proof {
        reveal_strlit("Content-Length: ");
        reveal_strlit("\r\n\r\n");
        assert(header@ =~= frame_header(payload@.len() as nat));
    }
    let hb = header.as_str().as_bytes();
    let mut out: Vec<u8> = Vec::new();
    let mut i: usize = 0;
    while i < hb.len()
        invariant
            i <= hb@.len(),
            out@ == hb@.take(i as int),
        decreases hb@.len() - i,
    {
        out.push(hb[i]);
        proof {
            assert(hb@.take(i + 1) =~= hb@.take(i as int).push(hb@[i as int]));
        }
        i = i + 1;
    }
    proof {
        assert(hb@.take(hb@.len() as int) =~= hb@);
    }
    let ghost head = out@;
    let mut j: usize = 0;
    while j < payload.len()
        invariant
            j <= payload@.len(),
            out@ == head + payload@.take(j as int),
        decreases payload@.len() - j,
    {
        out.push(payload[j]);
        proof {
            assert(payload@.take(j + 1) =~= payload@.take(j as int).push(payload@[j as int]));
        }
        j = j + 1;
    }
    proof {
        assert(payload@.take(payload@.len() as int) =~= payload@);
    }
    out
}

/// A message framed for the stream: the header, then the value's compact
/// JSON text.
pub fn encode_message(v: &JsonValue) -> (r: Vec<u8>)
    ensures
        r@ == encode_utf8(frame_header(json_text(v.data()).len() as nat)) + json_text(v.data()),
{
    let body = json_bytes(v);
    frame_message(body.as_slice())
}

/// What a line of a message header says.
#[derive(Debug)]
pub enum HeaderLine {
    /// The blank line that ends the header.
    End,
    /// A `Content-Length` field, with its value where that is a number.
    ContentLength(Option<usize>),
    /// Any other field.
    Other,
}

/// The line without the carriage returns and newlines that end it.
pub open spec fn without_line_end(cs: Seq<char>) -> Seq<char>
    decreases cs.len(),
{
    if cs.len() > 0 && (cs.last() == '\r' || cs.last() == '\n') {
        without_line_end(cs.drop_last())
    } else {
        cs
    }
}

/// The index of the first `:`, or the length when there is none.
pub open spec fn colon_index(cs: Seq<char>) -> nat
    decreases cs.len(),
{
    if cs.len() == 0 {
        0
    } else if cs[0] == ':' {
        0
    } else {
        1 + colon_index(cs.drop_first())
    }
}

/// Whether a field name is `Content-Length` in any ASCII case: each
/// character is the small or the capital letter (or the hyphen) there.
pub open spec fn names_content_length(name: Seq<char>) -> bool {
    let small = "content-length"@;
    let capital = "CONTENT-LENGTH"@;
    &&& name.len() == small.len()
    &&& forall|i: int| 0 <= i < name.len() ==> #[trigger] name[i] == small[i] || name[i] == capital[i]
}

/// The number that `str::parse::<usize>` reads from a text: an optional
/// `+`, then one or more ASCII digits, the value within range.
pub open spec fn parsed_usize(s: Seq<char>) -> Option<usize> {
    let ds = if s.len() > 0 && s[0] == '+' {
        s.drop_first()
    } else {
        s
    };
    if ds.len() == 0 || !all_digits(ds) || digits_value(ds) > usize::MAX {
        None
    } else {
        Some(digits_value(ds) as usize)
    }
}

/// Parses a decimal number as `str::parse::<usize>` does: an optional `+`,
/// then one or more ASCII digits, the value in range.
fn parse_usize(s: &str) -> (r: Option<usize>)
    ensures
        r == parsed_usize(s@),
{
    let cs = chars_of(s);
    let from: usize = if cs.len() > 0 && cs[0] == '+' {
        1
    } else {
        0
    };
    proof {
        assert(cs@.skip(0) =~= cs@);
        assert(cs@.skip(1) =~= cs@.drop_first());
    }
    if from == cs.len() {
        return None;
    }
    match digits_upto(&cs, from, usize::MAX as u64) {
        Some(v) => Some(v as usize),
        None => None,
    }
}

/// What a header line says: the end of the header where nothing is left
/// once its line end is dropped, else the length where the text before the
/// first `:` names `Content-Length` (its value trimmed of whitespace), else
/// another field.
pub open spec fn header_line_of(line: Seq<char>) -> HeaderLine {
    let t = without_line_end(line);
    let k = colon_index(t);
    if t.len() == 0 {
        HeaderLine::End
    } else if k < t.len() && names_content_length(t.take(k as int)) {
        HeaderLine::ContentLength(parsed_usize(trimmed(t.skip(k + 1int))))
    } else {
        HeaderLine::Other
    }
}

proof fn lemma_colon_index(cs: Seq<char>)
    ensures
        colon_index(cs) <= cs.len(),
        colon_index(cs) < cs.len() ==> cs[colon_index(cs) as int] == ':',
        forall|j: int| 0 <= j < colon_index(cs) ==> cs[j] != ':',
    decreases cs.len(),
{
    if cs.len() > 0 && cs[0] != ':' {
        lemma_colon_index(cs.drop_first());
        assert forall|j: int| 0 <= j < colon_index(cs) implies cs[j] != ':' by {
            if j > 0 {
                assert(cs[j] == cs.drop_first()[j - 1]);
            }
        }
    }
}

proof fn lemma_colon_index_of(cs: Seq<char>, k: int)
    requires
        0 <= k <= cs.len(),
        k < cs.len() ==> cs[k] == ':',
        forall|j: int| 0 <= j < k ==> cs[j] != ':',
    ensures
        colon_index(cs) == k,
    decreases cs.len(),
{
    if cs.len() > 0 && k > 0 {
        assert forall|j: int| 0 <= j < k - 1 implies cs.drop_first()[j] != ':' by {
            assert(cs.drop_first()[j] == cs[j + 1]);
        }
        lemma_colon_index_of(cs.drop_first(), k - 1);
    }
}

/// How long the line is once the carriage returns and newlines that end it
/// are dropped.
fn line_end_at(cs: &Vec<char>) -> (n: usize)
    ensures
        n <= cs@.len(),
        without_line_end(cs@) == cs@.take(n as int),
{
    let mut n = cs.len();
    proof {
        assert(cs@.take(n as int) =~= cs@);
    }
    while n > 0 && (cs[n - 1] == '\r' || cs[n - 1] == '\n')
        invariant
            n <= cs@.len(),
            without_line_end(cs@) == without_line_end(cs@.take(n as int)),
        decreases n,
    {
        proof {
            assert(cs@.take(n as int).drop_last() =~= cs@.take(n - 1));
        }
        n = n - 1;
    }
    n
}

/// Reads one line of a message header.
pub fn header_line(line: &str) -> (r: HeaderLine)
    ensures
        r == header_line_of(line@),
{
    let cs = chars_of(line);
    let n = line_end_at(&cs);
    let ghost t = cs@.take(n as int);
    if n == 0 {
        return HeaderLine::End;
    }
    let mut k: usize = 0;
    while k < n && cs[k] != ':'
        invariant
            k <= n <= cs@.len(),
            t == cs@.take(n as int),
            forall|j: int| 0 <= j < k ==> cs@[j] != ':',
        decreases n - k,
    {
        k = k + 1;
    }
    proof {
        assert forall|j: int| 0 <= j < k implies t[j] != ':' by {
            assert(t[j] == cs@[j]);
        }
        if k < n {
            assert(t[k as int] == cs@[k as int]);
        }
        lemma_colon_index_of(t, k as int);
    }
    if k == n {
        return HeaderLine::Other;
    }
    let small = chars_of("content-length");
    let capital = chars_of("CONTENT-LENGTH");
    proof {
        reveal_strlit("content-length");
        reveal_strlit("CONTENT-LENGTH");
    }
    if k != small.len() {
        return HeaderLine::Other;
    }
    assert(capital@.len() == k);
    let mut i: usize = 0;
    while i < k
        invariant
            i <= k,
            k == small@.len(),
            small@ == "content-length"@,
            capital@ == "CONTENT-LENGTH"@,
            capital@.len() == k,
            k < n <= cs@.len(),
            t == cs@.take(n as int),
            t == without_line_end(line@),
            colon_index(t) == k,
            forall|j: int| 0 <= j < i ==> cs@[j] == small@[j] || cs@[j] == capital@[j],
        decreases k - i,
    {
        if cs[i] != small[i] && cs[i] != capital[i] {
            proof {
                assert(t.take(k as int)[i as int] == cs@[i as int]);
                assert(!names_content_length(t.take(k as int)));
            }
            return HeaderLine::Other;
        }
        i = i + 1;
    }
    proof {
        assert forall|j: int| 0 <= j < k implies #[trigger] t.take(k as int)[j] == "content-length"@[j]
            || t.take(k as int)[j] == "CONTENT-LENGTH"@[j] by {
            assert(t.take(k as int)[j] == cs@[j]);
        }
        assert(names_content_length(t.take(k as int)));
    }
    let mut rest = String::new();
    let mut m: usize = k + 1;
    while m < n
        invariant
            k < m <= n <= cs@.len(),
            t == cs@.take(n as int),
            rest@ == t.subrange(k + 1, m as int),
        decreases n - m,
    {
        crate::text::push_char(&mut rest, cs[m]);
        proof {
            assert(t.subrange(k + 1, m + 1) =~= t.subrange(k + 1, m as int).push(t[m as int]));
        }
        m = m + 1;
    }
    proof {
        assert(rest@ =~= t.skip(k + 1));
    }
    let value = trim(rest.as_str());
    HeaderLine::ContentLength(parse_usize(value.as_str()))
}

} // verus!
