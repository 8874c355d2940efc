//! Characters, strings and their UTF-8 encoding.
//!
//! Byte offsets into a text are the lengths of the UTF-8 encodings of its
//! prefixes; `is_char_offset` says when a byte offset falls between two
//! characters.

use vstd::prelude::*;
use vstd::utf8::*;

verus! {

/// Number of bytes in the UTF-8 encoding of a character sequence.
pub open spec fn utf8_len(cs: Seq<char>) -> nat {
    encode_utf8(cs).len()
}

/// Number of bytes in the UTF-8 encoding of one character.
pub open spec fn char_width(c: char) -> nat {
    encode_scalar(c as u32).len()
}

/// Byte offset of the character with index `k` (the encoded length of the
/// first `k` characters).
pub open spec fn offset_of(cs: Seq<char>, k: int) -> nat {
    utf8_len(cs.take(k))
}

/// True when the byte offset `p` falls between two characters of `cs` (or at
/// either end).
pub open spec fn is_char_offset(cs: Seq<char>, p: int) -> bool {
    exists|k: int| 0 <= k <= cs.len() && #[trigger] offset_of(cs, k) == p
}

/// The index of the character that starts at byte offset `p`.
pub open spec fn char_index(cs: Seq<char>, p: int) -> int {
    choose|k: int| 0 <= k <= cs.len() && #[trigger] offset_of(cs, k) == p
}

/// The UTF-8 encoding of a sequence followed by another is the concatenation
/// of their encodings.
pub proof fn lemma_encode_concat(a: Seq<char>, b: Seq<char>)
    ensures
        encode_utf8(a + b) == encode_utf8(a) + encode_utf8(b),
    decreases a.len(),
{
    if a.len() == 0 {
        assert(a + b =~= b);
        assert(encode_utf8(a) =~= Seq::<u8>::empty());
        assert(encode_utf8(a) + encode_utf8(b) =~= encode_utf8(b));
    } else {
        assert((a + b).drop_first() =~= a.drop_first() + b);
        lemma_encode_concat(a.drop_first(), b);
        assert((a + b)[0] == a[0]);
        assert(encode_utf8(a + b) =~= encode_utf8(a) + encode_utf8(b));
    }
}

/// Every character takes one to four bytes.
pub proof fn lemma_char_width(c: char)
    ensures
        1 <= char_width(c) <= 4,
        (c as u32) <= 0x7F ==> char_width(c) == 1,
        0x80 <= (c as u32) <= 0x7FF ==> char_width(c) == 2,
        0x800 <= (c as u32) <= 0xFFFF ==> char_width(c) == 3,
        0x10000 <= (c as u32) ==> char_width(c) == 4,
{
    broadcast use char_is_scalar;
    let u = c as u32;
    assert(is_scalar(u));
}

/// The encoding of one character.
pub proof fn lemma_encode_single(c: char)
    ensures
        encode_utf8(seq![c]) == encode_scalar(c as u32),
{
    assert(seq![c].drop_first() =~= Seq::<char>::empty());
    assert(encode_utf8(Seq::<char>::empty()) =~= Seq::<u8>::empty());
    assert(encode_utf8(seq![c]) =~= encode_scalar(c as u32));
}

/// Appending a character appends its encoding.
pub proof fn lemma_encode_push(cs: Seq<char>, c: char)
    ensures
        encode_utf8(cs.push(c)) == encode_utf8(cs) + encode_scalar(c as u32),
        utf8_len(cs.push(c)) == utf8_len(cs) + char_width(c),
{
    assert(cs.push(c) =~= cs + seq![c]);
    lemma_encode_concat(cs, seq![c]);
    lemma_encode_single(c);
}

/// A text takes at least one byte per character.
pub proof fn lemma_utf8_len_at_least(cs: Seq<char>)
    ensures
        utf8_len(cs) >= cs.len(),
    decreases cs.len(),
{
    if cs.len() > 0 {
        lemma_utf8_len_at_least(cs.drop_last());
        assert(cs.drop_last().push(cs.last()) =~= cs);
        lemma_encode_push(cs.drop_last(), cs.last());
        lemma_char_width(cs.last());
    } else {
        assert(encode_utf8(cs) =~= Seq::<u8>::empty());
    }
}

/// The offset of character `k + 1` is the offset of character `k` plus its
/// width.
pub proof fn lemma_offset_step(cs: Seq<char>, k: int)
    requires
        0 <= k < cs.len(),
    ensures
        offset_of(cs, k + 1) == offset_of(cs, k) + char_width(cs[k]),
{
    assert(cs.take(k + 1) =~= cs.take(k).push(cs[k]));
    lemma_encode_push(cs.take(k), cs[k]);
}

/// Offsets grow strictly with the character index.
pub proof fn lemma_offset_strict(cs: Seq<char>, i: int, j: int)
    requires
        0 <= i < j <= cs.len(),
    ensures
        offset_of(cs, i) < offset_of(cs, j),
    decreases j - i,
{
    lemma_offset_step(cs, j - 1);
    lemma_char_width(cs[j - 1]);
    if i < j - 1 {
        lemma_offset_strict(cs, i, j - 1);
    }
}

/// Offsets grow with the character index.
pub proof fn lemma_offset_mono(cs: Seq<char>, i: int, j: int)
    requires
        0 <= i <= j <= cs.len(),
    ensures
        offset_of(cs, i) <= offset_of(cs, j),
{
    if i < j {
        lemma_offset_strict(cs, i, j);
    }
}

/// The whole text ends at offset `utf8_len(cs)`.
pub proof fn lemma_offset_full(cs: Seq<char>)
    ensures
        offset_of(cs, cs.len() as int) == utf8_len(cs),
        offset_of(cs, 0) == 0,
{
    assert(cs.take(cs.len() as int) =~= cs);
    assert(cs.take(0) =~= Seq::<char>::empty());
    assert(encode_utf8(Seq::<char>::empty()) =~= Seq::<u8>::empty());
}

/// The character index of a character offset lies within the text and
/// starts at that offset.
pub proof fn lemma_char_index_in_range(cs: Seq<char>, p: int)
    requires
        is_char_offset(cs, p),
    ensures
        0 <= char_index(cs, p) <= cs.len(),
        offset_of(cs, char_index(cs, p)) == p,
{
}

/// A character offset has exactly one character index.
pub proof fn lemma_char_index_unique(cs: Seq<char>, k: int)
    requires
        0 <= k <= cs.len(),
    ensures
        is_char_offset(cs, offset_of(cs, k) as int),
        char_index(cs, offset_of(cs, k) as int) == k,
{
    let p = offset_of(cs, k) as int;
    assert(0 <= k <= cs.len() && offset_of(cs, k) == p);
    let j = char_index(cs, p);
    if j < k {
        lemma_offset_strict(cs, j, k);
    } else if k < j {
        lemma_offset_strict(cs, k, j);
    }
}

/// The encoding of the characters between two indices is the slice of the
/// encoding between their offsets.
pub proof fn lemma_encode_subrange(cs: Seq<char>, i: int, j: int)
    requires
        0 <= i <= j <= cs.len(),
    ensures
        encode_utf8(cs.subrange(i, j)) == encode_utf8(cs).subrange(
            offset_of(cs, i) as int,
            offset_of(cs, j) as int,
        ),
{
    let a = cs.take(i);
    let b = cs.subrange(i, j);
    let c = cs.skip(j);
    assert(cs =~= a + b + c);
    assert(cs.take(j) =~= a + b);
    lemma_encode_concat(a, b);
    lemma_encode_concat(a + b, c);
    assert(encode_utf8(cs).subrange(offset_of(cs, i) as int, offset_of(cs, j) as int)
        =~= encode_utf8(b));
}

/// Byte width of a character's UTF-8 encoding.
pub fn char_len_utf8(c: char) -> (w: usize)
    ensures
        w == char_width(c),
{
    proof {
        lemma_char_width(c);
    }
    let u = c as u32;
    if u <= 0x7F {
        1
    } else if u <= 0x7FF {
        2
    } else if u <= 0xFFFF {
        3
    } else {
        4
    }
}

/// The characters of a string slice, in order.
#[verifier::external_body]
pub fn chars_of(s: &str) -> (v: Vec<char>)
    ensures
        v@ == s@,
        utf8_len(v@) <= usize::MAX,
{
    s.chars().collect()
}

/// A string made of the given characters.
#[verifier::external_body]
pub fn string_from_chars(cs: &[char]) -> (s: String)
    ensures
        s@ == cs@,
{
    cs.iter().collect()
}

/// Byte length of a string slice, as `str::len` reports it.
#[verifier::external_body]
pub fn utf8_len_of(s: &str) -> (n: usize)
    ensures
        n == utf8_len(s@),
{
    s.len()
}

/// Appends one character to a string.
#[verifier::external_body]
pub fn push_char(s: &mut String, c: char)
    ensures
        final(s)@ == old(s)@.push(c),
{
    s.push(c)
}

/// Appends a string slice to a string.
#[verifier::external_body]
pub fn push_str(s: &mut String, t: &str)
    ensures
        final(s)@ == old(s)@ + t@,
{
    s.push_str(t)
}

/// The character of a decimal digit.
pub open spec fn digit_char(d: nat) -> char {
    ((48 + d) as u8) as char
}

/// The decimal numeral of `n`, as integers print.
pub open spec fn decimal_text(n: nat) -> Seq<char>
    decreases n,
{
    if n < 10 {
        seq![digit_char(n)]
    } else {
        decimal_text(n / 10).push(digit_char(n % 10))
    }
}

/// The decimal numeral of `n`.
pub fn decimal_string(n: usize) -> (s: String)
    ensures
        s@ == decimal_text(n as nat),
    decreases n,
{
    let d: u8 = (n % 10) as u8;
    let c: char = (48u8 + d) as char;
    if n < 10 {
        let mut s = String::new();
        push_char(&mut s, c);
        proof {
            assert(s@ =~= seq![digit_char(n as nat)]);
        }
        s
    } else {
        let mut s = decimal_string(n / 10);
        push_char(&mut s, c);
        s
    }
}

/// Removes the last character of a string, as `String::pop` does.
#[verifier::external_body]
pub fn pop_char(s: &mut String) -> (r: Option<char>)
    ensures
        old(s)@.len() == 0 ==> r is None && final(s)@ == old(s)@,
        old(s)@.len() > 0 ==> r == Some(old(s)@.last()) && final(s)@ == old(s)@.drop_last(),
{
    s.pop()
}

/// The text that `String::from_utf8_lossy` makes of bytes that are not
/// valid UTF-8: each invalid sequence becomes U+FFFD.
pub uninterp spec fn utf8_lossy(bytes: Seq<u8>) -> Seq<char>;

/// The text decoded from bytes: valid UTF-8 decodes exactly; other bytes
/// give what `String::from_utf8_lossy` makes of them.
pub open spec fn lossy_decode(bytes: Seq<u8>) -> Seq<char> {
    if valid_utf8(bytes) {
        decode_utf8(bytes)
    } else {
        utf8_lossy(bytes)
    }
}

/// Decodes bytes as UTF-8 with `String::from_utf8_lossy`.  Valid UTF-8 is
/// decoded unchanged, as the documentation says; what it makes of other
/// bytes is named `utf8_lossy`.
#[verifier::external_body]
pub fn string_from_utf8_lossy(bytes: &[u8]) -> (s: String)
    ensures
        s@ == lossy_decode(bytes@),
        !valid_utf8(bytes@) ==> s@ == utf8_lossy(bytes@),
{
    String::from_utf8_lossy(bytes).into_owned()
}

/// Whether a character has the Unicode `White_Space` property (the
/// characters that PropList.txt of the Unicode Character Database lists).
pub open spec fn char_is_whitespace(c: char) -> bool {
    ||| '\u{9}' <= c <= '\u{D}'
    ||| c == ' '
    ||| c == '\u{85}'
    ||| c == '\u{A0}'
    ||| c == '\u{1680}'
    ||| '\u{2000}' <= c <= '\u{200A}'
    ||| c == '\u{2028}'
    ||| c == '\u{2029}'
    ||| c == '\u{202F}'
    ||| c == '\u{205F}'
    ||| c == '\u{3000}'
}

/// Whether a character has the Unicode `White_Space` property, as
/// `char::is_whitespace` reports it.
pub fn is_whitespace(c: char) -> (r: bool)
    ensures
        r == char_is_whitespace(c),
{
    ('\u{9}' <= c && c <= '\u{D}') || c == ' ' || c == '\u{85}' || c == '\u{A0}' || c == '\u{1680}'
        || ('\u{2000}' <= c && c <= '\u{200A}') || c == '\u{2028}' || c == '\u{2029}' || c
        == '\u{202F}' || c == '\u{205F}' || c == '\u{3000}'
}

/// Whether a character is alphabetic or numeric, as `char::is_alphanumeric`
/// reports it.
pub uninterp spec fn char_is_alphanumeric(c: char) -> bool;

/// An ASCII letter or digit.
pub open spec fn ascii_alphanumeric(c: char) -> bool {
    ('a' <= c <= 'z') || ('A' <= c <= 'Z') || ('0' <= c <= '9')
}

/// Calls `char::is_alphanumeric`; its result is named `char_is_alphanumeric`.
/// Among ASCII characters, as its documentation says (alphabetic or
/// numeric), exactly the letters and digits are alphanumeric.
#[verifier::external_body]
pub fn is_alphanumeric(c: char) -> (r: bool)
    ensures
        r == char_is_alphanumeric(c),
        c <= '\u{7F}' ==> r == ascii_alphanumeric(c),
{
    c.is_alphanumeric()
}

/// The lowercase form of a string, as `str::to_lowercase` computes it.
pub uninterp spec fn lowercase(s: Seq<char>) -> Seq<char>;

/// Whether every character is ASCII.
pub open spec fn all_ascii(s: Seq<char>) -> bool {
    forall|i: int| 0 <= i < s.len() ==> #[trigger] s[i] <= '\u{7F}'
}

/// An ASCII character lowercased: `A`..`Z` become `a`..`z`, others stay.
pub open spec fn ascii_lower(c: char) -> char {
    if 'A' <= c <= 'Z' {
        ((c as u32) + 32) as char
    } else {
        c
    }
}

/// Calls `str::to_lowercase`; its result is named `lowercase`.  On ASCII
/// text, whose lowercase forms the Unicode tables give one for one, it maps
/// `A`..`Z` to `a`..`z` and keeps every other character.
#[verifier::external_body]
pub fn to_lowercase(s: &str) -> (r: String)
    ensures
        r@ == lowercase(s@),
        all_ascii(s@) ==> r@ == s@.map_values(|c: char| ascii_lower(c)),
{
    s.to_lowercase()
}

/// A word character: alphanumeric or an underscore.
pub open spec fn spec_is_word(c: char) -> bool {
    char_is_alphanumeric(c) || c == '_'
}

/// Whether `c` is a word character.
pub fn is_word(c: char) -> (r: bool)
    ensures
        r == spec_is_word(c),
{
    is_alphanumeric(c) || c == '_'
}

/// Whether two string slices hold the same characters.
pub fn str_eq(a: &str, b: &str) -> (r: bool)
    ensures
        r == (a@ == b@),
{
    let x = a.as_bytes();
    let y = b.as_bytes();
    proof {
        encode_utf8_decode_utf8(a@);
        encode_utf8_decode_utf8(b@);
        assert(x@ == encode_utf8(a@));
        assert(y@ == encode_utf8(b@));
    }
    if x.len() != y.len() {
        return false;
    }
    let mut i: usize = 0;
    while i < x.len()
        invariant
            x.len() == y.len(),
            x@ == encode_utf8(a@),
            y@ == encode_utf8(b@),
            i <= x.len(),
            forall|j: int| 0 <= j < i ==> x@[j] == y@[j],
        decreases x.len() - i,
    {
        if x[i] != y[i] {
            proof {
                assert(x@[i as int] != y@[i as int]);
                assert(x@ != y@);
            }
            return false;
        }
        i = i + 1;
    }
    proof {
        assert(x@ =~= y@);
    }
    true
}

/// Finds the character index of a byte offset: `Some(k)` when `p` is the
/// offset of character `k`, `None` when `p` falls inside a character or past
/// the end.
pub fn find_char_index(cs: &Vec<char>, p: usize) -> (r: Option<usize>)
    requires
        utf8_len(cs@) <= usize::MAX,
    ensures
        r is Some <==> is_char_offset(cs@, p as int),
        r matches Some(k) ==> k <= cs.len() && offset_of(cs@, k as int) == p && char_index(
            cs@,
            p as int,
        ) == k,
{
    let mut k: usize = 0;
    let mut acc: usize = 0;
    proof {
        lemma_offset_full(cs@);
    }
    while k < cs.len() && acc < p
        invariant
            k <= cs.len(),
            acc == offset_of(cs@, k as int),
            utf8_len(cs@) <= usize::MAX,
            forall|j: int| 0 <= j < k ==> offset_of(cs@, j) < p,
        decreases cs.len() - k,
    {
        proof {
            lemma_offset_step(cs@, k as int);
            lemma_offset_mono(cs@, k as int + 1, cs.len() as int);
            lemma_offset_full(cs@);
        }
        let w = char_len_utf8(cs[k]);
        acc = acc + w;
        k = k + 1;
    }
    if acc == p {
        proof {
            lemma_char_index_unique(cs@, k as int);
        }
        Some(k)
    } else {
        proof {
            assert forall|j: int| 0 <= j <= cs.len() implies #[trigger] offset_of(cs@, j) != p by {
                if j > k {
                    lemma_offset_strict(cs@, k as int, j);
                }
            }
        }
        None
    }
}

/// Byte offsets of all characters: entry `k` is the offset of character `k`,
/// and the last entry is the byte length of the whole sequence.
pub fn char_offsets(cs: &Vec<char>) -> (r: Vec<usize>)
    requires
        utf8_len(cs@) <= usize::MAX,
    ensures
        r.len() == cs.len() + 1,
        forall|k: int| 0 <= k <= cs.len() ==> #[trigger] r@[k] == offset_of(cs@, k),
{
    let mut r: Vec<usize> = Vec::new();
    let mut acc: usize = 0;
    let mut k: usize = 0;
    proof {
        lemma_offset_full(cs@);
    }
    r.push(0);
    while k < cs.len()
        invariant
            k <= cs.len(),
            r.len() == k + 1,
            acc == offset_of(cs@, k as int),
            utf8_len(cs@) <= usize::MAX,
            forall|j: int| 0 <= j <= k ==> #[trigger] r@[j] == offset_of(cs@, j),
        decreases cs.len() - k,
    {
        proof {
            lemma_offset_step(cs@, k as int);
            lemma_offset_mono(cs@, k as int + 1, cs.len() as int);
            lemma_offset_full(cs@);
        }
        acc = acc + char_len_utf8(cs[k]);
        k = k + 1;
        r.push(acc);
    }
    r
}

/// Number of leading whitespace characters.
pub open spec fn leading_ws(cs: Seq<char>) -> int
    decreases cs.len(),
{
    if cs.len() > 0 && char_is_whitespace(cs[0]) {
        1 + leading_ws(cs.drop_first())
    } else {
        0
    }
}

/// Number of trailing whitespace characters.
pub open spec fn trailing_ws(cs: Seq<char>) -> int
    decreases cs.len(),
{
    if cs.len() > 0 && char_is_whitespace(cs.last()) {
        1 + trailing_ws(cs.drop_last())
    } else {
        0
    }
}

/// What `str::trim` leaves of a text: the text without leading and trailing
/// whitespace.
pub open spec fn trimmed(cs: Seq<char>) -> Seq<char> {
    let a = leading_ws(cs);
    let rest = cs.skip(a);
    rest.take(rest.len() - trailing_ws(rest))
}

proof fn lemma_leading_ws(cs: Seq<char>, k: int)
    requires
        0 <= k <= cs.len(),
        forall|j: int| 0 <= j < k ==> char_is_whitespace(#[trigger] cs[j]),
        k == cs.len() || !char_is_whitespace(cs[k]),
    ensures
        leading_ws(cs) == k,
    decreases k,
{
    if k > 0 {
        assert(char_is_whitespace(cs[0]));
        let d = cs.drop_first();
        assert forall|j: int| 0 <= j < k - 1 implies char_is_whitespace(#[trigger] d[j]) by {
            assert(d[j] == cs[j + 1]);
        }
        if k - 1 < d.len() {
            assert(d[k - 1] == cs[k]);
        }
        lemma_leading_ws(d, k - 1);
    }
}

proof fn lemma_trailing_ws(cs: Seq<char>, k: int)
    requires
        0 <= k <= cs.len(),
        forall|j: int| k <= j < cs.len() ==> char_is_whitespace(#[trigger] cs[j]),
        k == 0 || !char_is_whitespace(cs[k - 1]),
    ensures
        trailing_ws(cs) == cs.len() - k,
    decreases cs.len() - k,
{
    if k < cs.len() {
        assert(char_is_whitespace(cs.last()));
        let d = cs.drop_last();
        assert forall|j: int| k <= j < d.len() implies char_is_whitespace(#[trigger] d[j]) by {
            assert(d[j] == cs[j]);
        }
        if k > 0 {
            assert(d[k - 1] == cs[k - 1]);
        }
        lemma_trailing_ws(d, k);
    }
}

/// `str::trim`: the text without leading and trailing whitespace.
pub fn trim(s: &str) -> (r: String)
    ensures
        r@ == trimmed(s@),
{
    let cs = chars_of(s);
    let n = cs.len();
    let mut a: usize = 0;
    while a < n && is_whitespace(cs[a])
        invariant
            a <= n,
            n == cs.len(),
            forall|j: int| 0 <= j < a ==> char_is_whitespace(#[trigger] cs@[j]),
        decreases n - a,
    {
        a = a + 1;
    }
    proof {
        lemma_leading_ws(cs@, a as int);
    }
    let mut b: usize = n;
    while b > a && is_whitespace(cs[b - 1])
        invariant
            a <= b <= n,
            n == cs.len(),
            forall|j: int| b <= j < n ==> char_is_whitespace(#[trigger] cs@[j]),
        decreases b,
    {
        b = b - 1;
    }
    let ghost rest = cs@.skip(a as int);
    proof {
        assert forall|j: int| b - a <= j < rest.len() implies char_is_whitespace(
            #[trigger] rest[j],
        ) by {
            assert(rest[j] == cs@[j + a]);
        }
        if b > a {
            assert(rest[b - a - 1] == cs@[b - 1]);
        }
        lemma_trailing_ws(rest, b - a);
    }
    let mut out: Vec<char> = Vec::new();
    let mut i = a;
    while i < b
        invariant
            a <= i <= b <= n,
            n == cs.len(),
            out@ == cs@.subrange(a as int, i as int),
        decreases b - i,
    {
        out.push(cs[i]);
        i = i + 1;
    }
    proof {
        assert(out@ =~= rest.take(rest.len() - trailing_ws(rest)));
    }
    string_from_chars(out.as_slice())
}

} // verus!
