//! String building blocks shared by the chunking, extraction and index code:
//! Unicode whitespace, trimming, and slicing a string at character or byte
//! positions.

use vstd::prelude::*;
use vstd::string::StringSliceAdditionalSpecFns;
use vstd::utf8::*;

verus! {

broadcast use vstd::utf8::group_utf8_lib;

/// Whether a character has the Unicode `White_Space` property: the
/// characters U+0009 to U+000D, U+0020, U+0085, U+00A0, U+1680, U+2000 to
/// U+200A, U+2028, U+2029, U+202F, U+205F and U+3000.
pub open spec fn is_white_space(c: char) -> bool {
    let code = c as u32;
    ||| 0x9 <= code <= 0xd
    ||| code == 0x20
    ||| code == 0x85
    ||| code == 0xa0
    ||| code == 0x1680
    ||| 0x2000 <= code <= 0x200a
    ||| code == 0x2028
    ||| code == 0x2029
    ||| code == 0x202f
    ||| code == 0x205f
    ||| code == 0x3000
}

/// Whether the character has the Unicode `White_Space` property (as
/// `char::is_whitespace` decides it).
pub(crate) fn is_whitespace(c: char) -> (b: bool)
    ensures
        b == is_white_space(c),
{
    let code = c as u32;
    (0x9 <= code && code <= 0xd) || code == 0x20 || code == 0x85 || code == 0xa0 || code == 0x1680 || (0x2000
        <= code && code <= 0x200a) || code == 0x2028 || code == 0x2029 || code == 0x202f || code == 0x205f
        || code == 0x3000
}

/// Whether a character is alphabetic or numeric in Unicode terms, as
/// `char::is_alphanumeric` decides it.
pub uninterp spec fn is_alphanumeric_char(c: char) -> bool;

/// `char::is_alphanumeric`: whether the character has the Unicode
/// `Alphabetic` property or a numeric general category. The contract only
/// names that result.
#[verifier::external_body]
pub(crate) fn is_alphanumeric(c: char) -> (b: bool)
    ensures
        b == is_alphanumeric_char(c),
{
    c.is_alphanumeric()
}

/// The characters that Unicode lowercasing maps a character to, as
/// `char::to_lowercase` yields them.
pub uninterp spec fn lowercase_chars(c: char) -> Seq<char>;

/// `char::to_lowercase`, collected: the lowercase mapping of one character
/// (one or more characters). The contract only names that result.
#[verifier::external_body]
pub(crate) fn to_lowercase(c: char) -> (lower: String)
    ensures
        lower@ == lowercase_chars(c),
{
    c.to_lowercase().collect()
}

/// Appends one character to a string (`String::push`).
#[verifier::external_body]
pub(crate) fn push_char(s: &mut String, c: char)
    ensures
        final(s)@ == old(s)@.push(c),
{
    s.push(c);
}

/// The number of bytes of the character's UTF-8 encoding (as
/// `char::len_utf8` counts them).
pub(crate) fn char_len_utf8(c: char) -> (n: usize)
    ensures
        n == encode_scalar(c as u32).len(),
{
    let code = c as u32;
    proof {
        char_u32_cast(c, code);
    }
    if code <= 0x7f {
        1
    } else if code <= 0x7ff {
        2
    } else if code <= 0xffff {
        3
    } else {
        4
    }
}

/// The decimal digits of a number, most significant first.
pub open spec fn decimal_chars(n: nat) -> Seq<char>
    decreases n,
{
    if n < 10 {
        seq![(48 + n) as char]
    } else {
        decimal_chars(n / 10).push((48 + n % 10) as char)
    }
}

/// Appends a number written in decimal to a string.
fn push_decimal(n: usize, text: &mut String)
    ensures
        final(text)@ == old(text)@ + decimal_chars(n as nat),
    decreases n,
{
    if n >= 10 {
        push_decimal(n / 10, text);
    }
    let digit: u8 = (48 + n % 10) as u8;
    let c = digit as char;
    push_char(text, c);
    assert(text@ =~= old(text)@ + decimal_chars(n as nat));
}

/// A number written in decimal (as `ToString` on `usize` writes it).
pub(crate) fn decimal(n: usize) -> (text: String)
    ensures
        text@ == decimal_chars(n as nat),
{
    let mut text = String::new();
    push_decimal(n, &mut text);
    assert(text@ =~= decimal_chars(n as nat));
    text
}

/// Number of leading whitespace characters.
pub open spec fn leading_ws(s: Seq<char>) -> nat
    decreases s.len(),
{
    if s.len() > 0 && is_white_space(s[0]) {
        1 + leading_ws(s.drop_first())
    } else {
        0
    }
}

/// Number of trailing whitespace characters.
pub open spec fn trailing_ws(s: Seq<char>) -> nat
    decreases s.len(),
{
    if s.len() > 0 && is_white_space(s.last()) {
        1 + trailing_ws(s.drop_last())
    } else {
        0
    }
}

/// Whether every character is whitespace.
pub open spec fn all_white_space(s: Seq<char>) -> bool {
    forall|i: int| 0 <= i < s.len() ==> is_white_space(#[trigger] s[i])
}

/// The characters with leading and trailing whitespace removed (`str::trim`).
pub open spec fn trim_chars(s: Seq<char>) -> Seq<char> {
    if leading_ws(s) == s.len() {
        Seq::empty()
    } else {
        s.subrange(leading_ws(s) as int, s.len() - trailing_ws(s))
    }
}

/// The slice without leading and trailing `White_Space` characters (as
/// `str::trim` leaves it).
pub(crate) fn trim<'a>(s: &'a str) -> (t: &'a str)
    ensures
        t@ == trim_chars(s@),
{
    let chars = char_vec(s);
    let boundaries = char_boundaries(s);
    proof {
        lemma_leading_ws(s@);
        lemma_trailing_ws(s@);
    }
    let mut start: usize = 0;
    while start < chars.len() && is_whitespace(chars[start])
        invariant
            chars@ == s@,
            start <= chars@.len(),
            forall|i: int| 0 <= i < start ==> is_white_space(#[trigger] s@[i]),
        decreases chars@.len() - start,
    {
        start = start + 1;
    }
    proof {
        if start < leading_ws(s@) {
            assert(is_white_space(s@[start as int]));
        }
        if start > leading_ws(s@) {
            assert(is_white_space(s@[leading_ws(s@) as int]));
        }
    }
    if start == chars.len() {
        assert(trim_chars(s@) =~= s@.subrange(start as int, start as int));
        return char_slice(s, &boundaries, start, start);
    }
    let mut end: usize = chars.len();
    while end > start && is_whitespace(chars[end - 1])
        invariant
            chars@ == s@,
            start < chars@.len(),
            !is_white_space(s@[start as int]),
            start <= end <= chars@.len(),
            forall|i: int| end <= i < chars@.len() ==> is_white_space(#[trigger] s@[i]),
        decreases end,
    {
        end = end - 1;
    }
    proof {
        let t = trailing_ws(s@) as int;
        let n = s@.len() as int;
        if end < n - t {
            assert(is_white_space(s@[n - t - 1]));
        }
        if end > n - t {
            assert(is_white_space(s@[end - 1]));
        }
    }
    char_slice(s, &boundaries, start, end)
}

pub proof fn lemma_leading_ws(s: Seq<char>)
    ensures
        leading_ws(s) <= s.len(),
        forall|i: int| 0 <= i < leading_ws(s) ==> is_white_space(#[trigger] s[i]),
        leading_ws(s) < s.len() ==> !is_white_space(s[leading_ws(s) as int]),
    decreases s.len(),
{
    if s.len() > 0 && is_white_space(s[0]) {
        lemma_leading_ws(s.drop_first());
        assert forall|i: int| 0 <= i < leading_ws(s) implies is_white_space(#[trigger] s[i]) by {
            if i > 0 {
                assert(s[i] == s.drop_first()[i - 1]);
            }
        }
    }
}

pub proof fn lemma_trailing_ws(s: Seq<char>)
    ensures
        trailing_ws(s) <= s.len(),
        forall|i: int| s.len() - trailing_ws(s) <= i < s.len() ==> is_white_space(#[trigger] s[i]),
        trailing_ws(s) < s.len() ==> !is_white_space(s[s.len() - trailing_ws(s) - 1]),
    decreases s.len(),
{
    if s.len() > 0 && is_white_space(s.last()) {
        lemma_trailing_ws(s.drop_last());
        assert forall|i: int| s.len() - trailing_ws(s) <= i < s.len() implies is_white_space(#[trigger] s[i]) by {
            if i < s.len() - 1 {
                assert(s[i] == s.drop_last()[i]);
            }
        }
    }
}

/// What trimming leaves: nothing when all characters are whitespace,
/// otherwise a subrange that starts and ends with a non-whitespace character.
pub proof fn lemma_trim_chars(s: Seq<char>)
    ensures
        trim_chars(s).len() <= s.len(),
        trim_chars(s).len() == 0 <==> all_white_space(s),
        trim_chars(s).len() > 0 ==> {
            &&& leading_ws(s) + trailing_ws(s) < s.len()
            &&& trim_chars(s) == s.subrange(leading_ws(s) as int, s.len() - trailing_ws(s))
            &&& !is_white_space(trim_chars(s)[0])
            &&& !is_white_space(trim_chars(s).last())
        },
{
    lemma_leading_ws(s);
    lemma_trailing_ws(s);
    let l = leading_ws(s) as int;
    let t = trailing_ws(s) as int;
    if l == s.len() {
        assert(all_white_space(s));
    } else {
        assert(!is_white_space(s[l]));
        if s.len() - t <= l {
            assert(false);
        }
        assert(!all_white_space(s));
    }
}

/// Every character takes at least one byte.
pub proof fn lemma_utf8_len_at_least_chars(cs: Seq<char>)
    ensures
        cs.len() <= utf8_len(cs),
    decreases cs.len(),
{
    if cs.len() > 0 {
        lemma_utf8_len_at_least_chars(cs.drop_first());
    }
}

/// The byte length of the UTF-8 encoding of a character sequence.
pub open spec fn utf8_len(cs: Seq<char>) -> nat {
    encode_utf8(cs).len()
}

pub proof fn lemma_encode_utf8_concat(a: Seq<char>, b: Seq<char>)
    ensures
        encode_utf8(a + b) == encode_utf8(a) + encode_utf8(b),
    decreases a.len(),
{
    if a.len() == 0 {
        assert(a + b =~= b);
        assert(encode_utf8(a) + encode_utf8(b) =~= encode_utf8(b));
    } else {
        lemma_encode_utf8_concat(a.drop_first(), b);
        assert((a + b).drop_first() =~= a.drop_first() + b);
        assert((a + b)[0] == a[0]);
        assert(encode_utf8(a + b) =~= encode_utf8(a) + encode_utf8(b));
    }
}

pub proof fn lemma_utf8_len_prefix(cs: Seq<char>, i: int)
    requires
        0 <= i <= cs.len(),
    ensures
        utf8_len(cs.take(i)) <= utf8_len(cs),
        encode_utf8(cs) == encode_utf8(cs.take(i)) + encode_utf8(cs.skip(i)),
{
    assert(cs =~= cs.take(i) + cs.skip(i));
    lemma_encode_utf8_concat(cs.take(i), cs.skip(i));
}

pub proof fn lemma_utf8_len_push(cs: Seq<char>, c: char)
    ensures
        utf8_len(cs.push(c)) == utf8_len(cs) + encode_scalar(c as u32).len(),
{
    lemma_encode_utf8_concat(cs, seq![c]);
    assert(cs.push(c) =~= cs + seq![c]);
    assert(seq![c].drop_first() =~= Seq::<char>::empty());
    reveal_with_fuel(encode_utf8, 2);
    assert(encode_utf8(seq![c]) =~= encode_scalar(c as u32));
}

/// The end of an encoded prefix is a character boundary of the whole
/// encoding.
pub proof fn lemma_prefix_is_char_boundary(a: Seq<char>, b: Seq<char>)
    ensures
        is_char_boundary(encode_utf8(a + b), encode_utf8(a).len() as int),
    decreases a.len(),
{
    let bytes = encode_utf8(a + b);
    lemma_encode_utf8_concat(a, b);
    if a.len() == 0 {
    } else {
        let rest = (a + b).drop_first();
        assert(rest =~= a.drop_first() + b);
        encode_utf8_first_scalar(a + b);
        lemma_prefix_is_char_boundary(a.drop_first(), b);
        assert(pop_first_scalar(bytes) =~= encode_utf8(rest));
        assert((a + b)[0] == a[0]);
        assert(encode_utf8(a).len() == encode_scalar(a[0] as u32).len() + encode_utf8(a.drop_first()).len());
    }
}

/// Every character index of a sequence maps to a character boundary of its
/// encoding.
pub proof fn lemma_char_index_boundary(cs: Seq<char>, i: int)
    requires
        0 <= i <= cs.len(),
    ensures
        is_char_boundary(encode_utf8(cs), utf8_len(cs.take(i)) as int),
{
    assert(cs =~= cs.take(i) + cs.skip(i));
    lemma_prefix_is_char_boundary(cs.take(i), cs.skip(i));
}

/// The bytes between two character indexes encode the characters between
/// them.
pub proof fn lemma_char_range_bytes(cs: Seq<char>, i: int, j: int)
    requires
        0 <= i <= j <= cs.len(),
    ensures
        encode_utf8(cs).subrange(utf8_len(cs.take(i)) as int, utf8_len(cs.take(j)) as int)
            == encode_utf8(cs.subrange(i, j)),
        utf8_len(cs.take(i)) <= utf8_len(cs.take(j)),
{
    let a = cs.take(i);
    let m = cs.subrange(i, j);
    let z = cs.skip(j);
    assert(cs =~= a + m + z);
    assert(cs.take(j) =~= a + m);
    lemma_encode_utf8_concat(a, m);
    lemma_encode_utf8_concat(a + m, z);
    assert(encode_utf8(cs).subrange(utf8_len(a) as int, utf8_len(a + m) as int) =~= encode_utf8(m));
}

/// A boundary of a valid encoding stays a boundary of any suffix that starts
/// at an earlier boundary.
proof fn lemma_boundary_in_suffix(bytes: Seq<u8>, start: int, end: int)
    requires
        valid_utf8(bytes),
        0 <= start <= end <= bytes.len(),
        is_char_boundary(bytes, start),
        is_char_boundary(bytes, end),
    ensures
        valid_utf8(bytes.subrange(start, bytes.len() as int)),
        is_char_boundary(bytes.subrange(start, bytes.len() as int), end - start),
{
    let tail = bytes.subrange(start, bytes.len() as int);
    valid_utf8_split(bytes, start);
    if end == bytes.len() {
        is_char_boundary_start_end_of_seq(tail);
    } else {
        is_char_boundary_iff_not_is_continuation_byte(bytes, end);
        is_char_boundary_iff_not_is_continuation_byte(tail, end - start);
        assert(tail[end - start] == bytes[end]);
    }
}

/// In valid UTF-8, the byte after an ASCII byte starts a character (or ends
/// the encoding).
pub proof fn lemma_boundary_after_ascii(bytes: Seq<u8>, j: int)
    requires
        valid_utf8(bytes),
        0 <= j < bytes.len(),
        bytes[j] < 0x80,
    ensures
        is_char_boundary(bytes, j + 1),
{
    if j + 1 == bytes.len() {
        is_char_boundary_start_end_of_seq(bytes);
    } else {
        is_char_boundary_iff_not_is_continuation_byte(bytes, j);
        let tail = bytes.subrange(j, bytes.len() as int);
        valid_utf8_split(bytes, j);
        assert(tail[0] == bytes[j]);
        let rest = pop_first_scalar(tail);
        assert(rest =~= bytes.subrange(j + 1, bytes.len() as int));
        assert(valid_utf8(rest));
        assert(rest[0] == bytes[j + 1]);
        assert(valid_first_scalar(rest));
        is_char_boundary_iff_not_is_continuation_byte(bytes, j + 1);
    }
}

/// Whether two string slices hold the same characters (`str == str`).
pub fn text_equals(a: &str, b: &str) -> (same: bool)
    ensures
        same == (a@ == b@),
{
    a.to_owned() == b.to_owned()
}

/// Whether a string slice ends with the given suffix (`str::ends_with`).
pub fn ends_with_text(s: &str, suffix: &str) -> (ends: bool)
    ensures
        ends == suffix@.is_suffix_of(s@),
{
    let chars = char_vec(s);
    let tail = char_vec(suffix);
    if tail.len() > chars.len() {
        return false;
    }
    let offset = chars.len() - tail.len();
    let mut i: usize = 0;
    while i < tail.len()
        invariant
            chars@ == s@,
            tail@ == suffix@,
            tail.len() <= chars.len(),
            offset == chars.len() - tail.len(),
            i <= tail.len(),
            forall|k: int| 0 <= k < i ==> tail@[k] == chars@[offset + k],
        decreases tail.len() - i,
    {
        if tail[i] != chars[offset + i] {
            assert(s@.subrange(offset as int, s@.len() as int)[i as int] != suffix@[i as int]);
            return false;
        }
        i = i + 1;
    }
    assert(s@.subrange(offset as int, s@.len() as int) =~= suffix@);
    true
}

/// `str::get` with a byte range: the sub-slice when both ends lie on
/// character boundaries in order within the slice, else `None`.
#[verifier::external_body]
pub(crate) fn str_get<'a>(s: &'a str, start: usize, end: usize) -> (part: Option<&'a str>)
    ensures
        part is Some <==> (start <= end <= s.spec_bytes().len() && is_char_boundary(
            s.spec_bytes(),
            start as int,
        ) && is_char_boundary(s.spec_bytes(), end as int)),
        part matches Some(p) ==> p.spec_bytes() == s.spec_bytes().subrange(start as int, end as int),
{
    s.get(start..end)
}

/// The rest of the slice after a prefix, when the slice starts with it (as
/// `str::strip_prefix` gives it).
pub(crate) fn strip_prefix<'a>(s: &'a str, prefix: &str) -> (rest: Option<&'a str>)
    ensures
        rest is Some <==> prefix@.is_prefix_of(s@),
        rest matches Some(r) ==> r@ == s@.skip(prefix@.len() as int),
{
    let chars = char_vec(s);
    let wanted = char_vec(prefix);
    if wanted.len() > chars.len() {
        return None;
    }
    let mut i: usize = 0;
    while i < wanted.len()
        invariant
            chars@ == s@,
            wanted@ == prefix@,
            wanted@.len() <= chars@.len(),
            i <= wanted@.len(),
            forall|k: int| 0 <= k < i ==> #[trigger] chars@[k] == wanted@[k],
        decreases wanted@.len() - i,
    {
        if chars[i] != wanted[i] {
            assert(s@.subrange(0, prefix@.len() as int)[i as int] != prefix@[i as int]);
            return None;
        }
        i = i + 1;
    }
    assert(prefix@ =~= s@.subrange(0, prefix@.len() as int));
    let boundaries = char_boundaries(s);
    let rest = char_slice(s, &boundaries, wanted.len(), chars.len());
    assert(rest@ =~= s@.skip(prefix@.len() as int));
    Some(rest)
}

/// `String::from_utf8`, with the error dropped: the string the bytes encode
/// when they are valid UTF-8.
#[verifier::external_body]
pub(crate) fn string_from_utf8(bytes: Vec<u8>) -> (s: Option<String>)
    ensures
        s is Some <==> valid_utf8(bytes@),
        s matches Some(t) ==> t@ == decode_utf8(bytes@),
{
    String::from_utf8(bytes).ok()
}

/// The sub-slice between two byte offsets that fall on character
/// boundaries.
pub fn byte_slice<'a>(s: &'a str, start: usize, end: usize) -> (part: &'a str)
    requires
        start <= end <= s.spec_bytes().len(),
        is_char_boundary(s.spec_bytes(), start as int),
        is_char_boundary(s.spec_bytes(), end as int),
    ensures
        part.spec_bytes() == s.spec_bytes().subrange(start as int, end as int),
        part@ == decode_utf8(s.spec_bytes().subrange(start as int, end as int)),
{
    proof {
        lemma_boundary_in_suffix(s.spec_bytes(), start as int, end as int);
    }
    let (_head, tail) = s.split_at(start);
    let (part, _rest) = tail.split_at(end - start);
    assert(part.spec_bytes() =~= s.spec_bytes().subrange(start as int, end as int));
    part
}

/// The sub-slice between two character indexes, given the byte offset of
/// every character index.
pub fn char_slice<'a>(s: &'a str, boundaries: &Vec<usize>, start: usize, end: usize) -> (part: &'a str)
    requires
        start <= end <= s@.len(),
        boundaries@.len() == s@.len() + 1,
        forall|k: int| 0 <= k <= s@.len() ==> boundaries@[k] == utf8_len(#[trigger] s@.take(k)),
    ensures
        part@ == s@.subrange(start as int, end as int),
{
    proof {
        lemma_char_index_boundary(s@, start as int);
        lemma_char_index_boundary(s@, end as int);
        lemma_char_range_bytes(s@, start as int, end as int);
        lemma_utf8_len_prefix(s@, end as int);
        assert(s@.take(s@.len() as int) =~= s@);
    }
    let b_start = boundaries[start];
    let b_end = boundaries[end];
    byte_slice(s, b_start, b_end)
}

/// Byte offsets of every character index, with the total byte length last.
pub fn char_boundaries(text: &str) -> (boundaries: Vec<usize>)
    ensures
        boundaries@.len() == text@.len() + 1,
        forall|k: int| 0 <= k <= text@.len() ==> boundaries@[k] == utf8_len(#[trigger] text@.take(k)),
{
    let chars = char_vec(text);
    let total = text.as_bytes().len();
    let mut boundaries: Vec<usize> = Vec::new();
    let mut offset: usize = 0;
    let mut i: usize = 0;
    assert(text@.take(0) =~= Seq::<char>::empty());
    assert(total == utf8_len(text@));
    while i < chars.len()
        invariant
            chars@ == text@,
            total == utf8_len(text@),
            i <= chars.len(),
            boundaries@.len() == i,
            offset == utf8_len(text@.take(i as int)),
            forall|k: int| 0 <= k < i ==> boundaries@[k] == utf8_len(#[trigger] text@.take(k)),
        decreases chars.len() - i,
    {
        boundaries.push(offset);
        let c = chars[i];
        proof {
            assert(text@.take(i + 1) =~= text@.take(i as int).push(c));
            lemma_utf8_len_push(text@.take(i as int), c);
            lemma_utf8_len_prefix(text@, i + 1);
        }
        offset = offset + char_len_utf8(c);
        i = i + 1;
    }
    assert(text@.take(i as int) =~= text@);
    boundaries.push(offset);
    boundaries
}

/// Count Unicode scalar values.
pub fn char_count(text: &str) -> (count: usize)
    ensures
        count == text@.len(),
{
    let bytes = text.as_bytes().len();
    proof {
        lemma_utf8_len_at_least_chars(text@);
    }
    let mut count: usize = 0;
    for c in it: text.chars()
        invariant
            it.seq() == text@,
            text@.len() <= bytes,
            count == it.index(),
            it.index() <= it.seq().len(),
    {
        count = count + 1;
    }
    count
}

/// The characters of a string slice, in order.
pub fn char_vec(text: &str) -> (chars: Vec<char>)
    ensures
        chars@ == text@,
{
    let mut chars: Vec<char> = Vec::new();
    for c in it: text.chars()
        invariant
            chars@ == it.seq().take(it.index() as int),
    {
        chars.push(c);
    }
    chars
}

/// Lexicographic order of texts by code point, which is the byte order of
/// their UTF-8 encodings (`Ord` on `str`): `a` comes before or equals `b`.
pub open spec fn text_leq(a: Seq<char>, b: Seq<char>) -> bool
    decreases a.len(),
{
    if a.len() == 0 {
        true
    } else if b.len() == 0 {
        false
    } else if a[0] != b[0] {
        a[0] < b[0]
    } else {
        text_leq(a.drop_first(), b.drop_first())
    }
}

proof fn lemma_text_leq_reflexive(a: Seq<char>)
    ensures
        text_leq(a, a),
    decreases a.len(),
{
    if a.len() > 0 {
        lemma_text_leq_reflexive(a.drop_first());
    }
}

proof fn lemma_text_leq_antisymmetric(a: Seq<char>, b: Seq<char>)
    requires
        text_leq(a, b),
        text_leq(b, a),
    ensures
        a == b,
    decreases a.len(),
{
    if a.len() > 0 && b.len() > 0 {
        lemma_text_leq_antisymmetric(a.drop_first(), b.drop_first());
        assert(a =~= seq![a[0]] + a.drop_first());
        assert(b =~= seq![b[0]] + b.drop_first());
    }
}

proof fn lemma_text_leq_transitive(a: Seq<char>, b: Seq<char>, c: Seq<char>)
    requires
        text_leq(a, b),
        text_leq(b, c),
    ensures
        text_leq(a, c),
    decreases a.len(),
{
    if a.len() > 0 && b.len() > 0 && c.len() > 0 && a[0] == b[0] && b[0] == c[0] {
        lemma_text_leq_transitive(a.drop_first(), b.drop_first(), c.drop_first());
    }
}

proof fn lemma_text_leq_connected(a: Seq<char>, b: Seq<char>)
    ensures
        text_leq(a, b) || text_leq(b, a),
    decreases a.len(),
{
    if a.len() > 0 && b.len() > 0 && a[0] == b[0] {
        lemma_text_leq_connected(a.drop_first(), b.drop_first());
    }
}

/// The text order is a total order.
pub proof fn lemma_text_leq_total()
    ensures
        forall|a: Seq<char>| #[trigger] text_leq(a, a),
        forall|a: Seq<char>, b: Seq<char>| #[trigger] text_leq(a, b) && #[trigger] text_leq(b, a) ==> a == b,
        forall|a: Seq<char>, b: Seq<char>, c: Seq<char>|
            #[trigger] text_leq(a, b) && #[trigger] text_leq(b, c) ==> text_leq(a, c),
        forall|a: Seq<char>, b: Seq<char>| #[trigger] text_leq(a, b) || #[trigger] text_leq(b, a),
{
    assert forall|a: Seq<char>| #[trigger] text_leq(a, a) by {
        lemma_text_leq_reflexive(a);
    }
    assert forall|a: Seq<char>, b: Seq<char>| #[trigger] text_leq(a, b) && #[trigger] text_leq(b, a) implies a
        == b by {
        lemma_text_leq_antisymmetric(a, b);
    }
    assert forall|a: Seq<char>, b: Seq<char>, c: Seq<char>|
        #[trigger] text_leq(a, b) && #[trigger] text_leq(b, c) implies text_leq(a, c) by {
        lemma_text_leq_transitive(a, b, c);
    }
    assert forall|a: Seq<char>, b: Seq<char>| #[trigger] text_leq(a, b) || #[trigger] text_leq(b, a) by {
        lemma_text_leq_connected(a, b);
    }
}

/// Whether `a` comes before or equals `b` in the text order.
pub fn text_le(a: &str, b: &str) -> (le: bool)
    ensures
        le == text_leq(a@, b@),
{
    let x = char_vec(a);
    let y = char_vec(b);
    let mut i: usize = 0;
    assert(a@.skip(0) =~= a@);
    assert(b@.skip(0) =~= b@);
    while i < x.len() && i < y.len()
        invariant
            x@ == a@,
            y@ == b@,
            i <= x@.len(),
            i <= y@.len(),
            text_leq(a@, b@) == text_leq(a@.skip(i as int), b@.skip(i as int)),
        decreases x@.len() - i,
    {
        proof {
            assert(a@.skip(i as int)[0] == x@[i as int]);
            assert(b@.skip(i as int)[0] == y@[i as int]);
        }
        if x[i] != y[i] {
            return x[i] < y[i];
        }
        proof {
            assert(a@.skip(i as int).drop_first() =~= a@.skip(i + 1));
            assert(b@.skip(i as int).drop_first() =~= b@.skip(i + 1));
        }
        i = i + 1;
    }
    i == x.len()
}

/// What `{:?}` writes for a string: the text quoted, with quotes,
/// backslashes, control and non-printable characters escaped.
pub uninterp spec fn debug_quoted(text: Seq<char>) -> Seq<char>;

/// `{:?}` of a string slice (`<str as Debug>::fmt`). The contract only names
/// the result.
#[verifier::external_body]
pub(crate) fn debug_text(text: &str) -> (quoted: String)
    ensures
        quoted@ == debug_quoted(text@),
{
    format!("{text:?}")
}

/// What `{:?}` writes for a flag.
pub open spec fn flag_debug(flag: bool) -> Seq<char> {
    if flag {
        "true"@
    } else {
        "false"@
    }
}

/// Writes a flag as `{:?}` does.
pub fn flag_debug_text(flag: bool) -> (text: &'static str)
    ensures
        text@ == flag_debug(flag),
{
    if flag {
        "true"
    } else {
        "false"
    }
}

} // verus!
