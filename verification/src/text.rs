//! Characters and texts: the handling that request headers, file names and
//! settings go through.

use vstd::prelude::*;
use vstd::slice::slice_subrange;
use vstd::string::*;
use vstd::utf8::*;

verus! {

/// `String::push` appends one character. Claimed: the text afterwards is the
/// text before with that character at its end.
pub assume_specification[ String::push ](s: &mut String, c: char)
    ensures
        final(s)@ == old(s)@.push(c),
;

/// The characters with Unicode's White_Space property.
pub open spec fn white_space(c: char) -> bool {
    ||| '\u{9}' <= c <= '\u{d}'
    ||| c == '\u{20}'
    ||| c == '\u{85}'
    ||| c == '\u{a0}'
    ||| c == '\u{1680}'
    ||| '\u{2000}' <= c <= '\u{200a}'
    ||| c == '\u{2028}'
    ||| c == '\u{2029}'
    ||| c == '\u{202f}'
    ||| c == '\u{205f}'
    ||| c == '\u{3000}'
}

/// Whether a character is white space.
pub fn is_white_space(c: char) -> (r: bool)
    ensures
        r == white_space(c),
{
    ('\u{9}' <= c && c <= '\u{d}') || c == '\u{20}' || c == '\u{85}' || c == '\u{a0}' || c
        == '\u{1680}' || ('\u{2000}' <= c && c <= '\u{200a}') || c == '\u{2028}' || c == '\u{2029}'
        || c == '\u{202f}' || c == '\u{205f}' || c == '\u{3000}'
}

/// The text without the white space at its front.
pub open spec fn trim_front(s: Seq<char>) -> Seq<char>
    decreases s.len(),
{
    if s.len() > 0 && white_space(s[0]) {
        trim_front(s.drop_first())
    } else {
        s
    }
}

/// The text without the white space at its back.
pub open spec fn trim_back(s: Seq<char>) -> Seq<char>
    decreases s.len(),
{
    if s.len() > 0 && white_space(s.last()) {
        trim_back(s.drop_last())
    } else {
        s
    }
}

/// The text without the white space around it.
pub open spec fn trimmed(s: Seq<char>) -> Seq<char> {
    trim_back(trim_front(s))
}

/// What is trimmed is a stretch of the text.
pub proof fn lemma_trimmed_is_inside(s: Seq<char>)
    ensures
        exists|i: int, j: int| 0 <= i <= j <= s.len() && trimmed(s) == #[trigger] s.subrange(i, j),
{
    lemma_trim_front_is_inside(s);
    let i = choose|i: int| 0 <= i <= s.len() && trim_front(s) == #[trigger] s.skip(i);
    let front = s.skip(i);
    lemma_trim_back_is_inside(front);
    let n = choose|n: int| 0 <= n <= front.len() && trim_back(front) == #[trigger] front.take(n);
    assert(front.take(n) == s.subrange(i, i + n));
}

proof fn lemma_trim_front_is_inside(s: Seq<char>)
    ensures
        exists|i: int| 0 <= i <= s.len() && trim_front(s) == #[trigger] s.skip(i),
    decreases s.len(),
{
    if s.len() > 0 && white_space(s[0]) {
        let rest = s.drop_first();
        lemma_trim_front_is_inside(rest);
        let i = choose|i: int| 0 <= i <= rest.len() && trim_front(rest) == #[trigger] rest.skip(i);
        assert(rest.skip(i) == s.skip(i + 1));
    } else {
        assert(s.skip(0) == s);
    }
}

proof fn lemma_trim_back_is_inside(s: Seq<char>)
    ensures
        exists|n: int| 0 <= n <= s.len() && trim_back(s) == #[trigger] s.take(n),
    decreases s.len(),
{
    if s.len() > 0 && white_space(s.last()) {
        let rest = s.drop_last();
        lemma_trim_back_is_inside(rest);
        let n = choose|n: int| 0 <= n <= rest.len() && trim_back(rest) == #[trigger] rest.take(n);
        assert(rest.take(n) == s.take(n));
    } else {
        assert(s.take(s.len() as int) == s);
    }
}

/// A text without white space at its ends stays as it is.
pub proof fn lemma_tight_text(s: Seq<char>)
    requires
        s.len() > 0,
        !white_space(s[0]),
        !white_space(s[s.len() - 1]),
    ensures
        trimmed(s) == s,
{
}

proof fn lemma_trim_front_is_tight(s: Seq<char>)
    ensures
        trim_front(s).len() > 0 ==> !white_space(trim_front(s)[0]),
    decreases s.len(),
{
    if s.len() > 0 && white_space(s[0]) {
        lemma_trim_front_is_tight(s.drop_first());
    }
}

proof fn lemma_trim_back_is_tight(s: Seq<char>)
    ensures
        trim_back(s).len() > 0 ==> !white_space(trim_back(s).last()) && s.len() > 0
            && trim_back(s)[0] == s[0],
    decreases s.len(),
{
    if s.len() > 0 && white_space(s.last()) {
        lemma_trim_back_is_tight(s.drop_last());
    }
}

/// Trimming what has been trimmed changes nothing.
pub proof fn law_trimming_once_is_enough(s: Seq<char>)
    ensures
        trimmed(trimmed(s)) == trimmed(s),
{
    lemma_trim_front_is_tight(s);
    lemma_trim_back_is_tight(trim_front(s));
    if trimmed(s).len() > 0 {
        lemma_tight_text(trimmed(s));
    }
}

/// Trimming takes nothing but white space away.
pub proof fn lemma_trimmed_keeps(s: Seq<char>, c: char)
    requires
        s.contains(c),
        !white_space(c),
    ensures
        trimmed(s).contains(c),
{
    lemma_trim_front_keeps(s, c);
    lemma_trim_back_keeps(trim_front(s), c);
}

proof fn lemma_trim_front_keeps(s: Seq<char>, c: char)
    requires
        s.contains(c),
        !white_space(c),
    ensures
        trim_front(s).contains(c),
    decreases s.len(),
{
    if s.len() > 0 && white_space(s[0]) {
        let k = choose|k: int| 0 <= k < s.len() && s[k] == c;
        assert(s.drop_first()[k - 1] == c);
        lemma_trim_front_keeps(s.drop_first(), c);
    }
}

proof fn lemma_trim_back_keeps(s: Seq<char>, c: char)
    requires
        s.contains(c),
        !white_space(c),
    ensures
        trim_back(s).contains(c),
    decreases s.len(),
{
    if s.len() > 0 && white_space(s.last()) {
        let k = choose|k: int| 0 <= k < s.len() && s[k] == c;
        assert(s.drop_last()[k] == c);
        lemma_trim_back_keeps(s.drop_last(), c);
    }
}

/// The characters of a text, in order.
pub fn chars_of(s: &str) -> (r: Vec<char>)
    ensures
        r@ == s@,
{
    let mut out: Vec<char> = Vec::new();
    for c in it: s.chars()
        invariant
            out@ == it.seq().take(it.index()),
            it.seq() == s@,
    {
        out.push(c);
    }
    out
}

/// The text made of the given characters.
pub fn text_of(chars: &[char]) -> (r: String)
    ensures
        r@ == chars@,
{
    let mut out = String::new();
    let mut i: usize = 0;
    while i < chars.len()
        invariant
            i <= chars@.len(),
            out@ == chars@.take(i as int),
        decreases chars@.len() - i,
    {
        out.push(chars[i]);
        assert(chars@.take(i + 1) == chars@.take(i as int).push(chars@[i as int]));
        i += 1;
    }
    assert(chars@.take(i as int) == chars@);
    out
}

/// The part of `chars` between the white space around it.
pub fn trim_chars(chars: &[char]) -> (r: &[char])
    ensures
        r@ == trimmed(chars@),
{
    let mut i: usize = 0;
    assert(chars@.skip(0) == chars@);
    while i < chars.len() && is_white_space(chars[i])
        invariant
            i <= chars@.len(),
            trim_front(chars@) == trim_front(chars@.skip(i as int)),
        decreases chars@.len() - i,
    {
        assert(chars@.skip(i as int).drop_first() == chars@.skip(i + 1));
        i += 1;
    }
    let front = slice_subrange(chars, i, chars.len());
    assert(front@ == chars@.skip(i as int));
    let mut j: usize = front.len();
    assert(front@.take(j as int) == front@);
    while j > 0 && is_white_space(front[j - 1])
        invariant
            j <= front@.len(),
            trim_back(front@) == trim_back(front@.take(j as int)),
        decreases j,
    {
        assert(front@.take(j as int).drop_last() == front@.take(j - 1));
        j -= 1;
    }
    let r = slice_subrange(front, 0, j);
    assert(r@ == front@.take(j as int));
    r
}

/// A copy of the text without the white space around it.
pub fn trim(s: &str) -> (r: String)
    ensures
        r@ == trimmed(s@),
{
    let chars = chars_of(s);
    text_of(trim_chars(chars.as_slice()))
}

/// Whether two texts are the same.
pub fn same_text(a: &str, b: &str) -> (r: bool)
    ensures
        r == (a@ == b@),
{
    a.to_owned() == b.to_owned()
}

/// The small letter of an ASCII capital; any other character stays.
pub open spec fn ascii_lower_char(c: char) -> char {
    if 'A' <= c <= 'Z' {
        ((c as u8) + 32) as char
    } else {
        c
    }
}

/// The text with its ASCII capitals made small.
pub open spec fn ascii_lower(s: Seq<char>) -> Seq<char> {
    s.map_values(|c: char| ascii_lower_char(c))
}

/// The given characters as a text, with ASCII capitals made small.
pub fn to_ascii_lower(chars: &[char]) -> (r: String)
    ensures
        r@ == ascii_lower(chars@),
{
    let mut out = String::new();
    let mut i: usize = 0;
    while i < chars.len()
        invariant
            i <= chars@.len(),
            out@ == ascii_lower(chars@.take(i as int)),
        decreases chars@.len() - i,
    {
        let c = chars[i];
        let small = if 'A' <= c && c <= 'Z' {
            (c as u8 + 32) as char
        } else {
            c
        };
        out.push(small);
        assert(ascii_lower(chars@.take(i + 1)) == ascii_lower(chars@.take(i as int)).push(small));
        i += 1;
    }
    assert(chars@.take(i as int) == chars@);
    out
}

/// The control characters (Unicode's general category Cc).
pub open spec fn control(c: char) -> bool {
    c <= '\u{1f}' || '\u{7f}' <= c <= '\u{9f}'
}

/// Whether a character is a control character.
pub fn is_control(c: char) -> (r: bool)
    ensures
        r == control(c),
{
    c <= '\u{1f}' || ('\u{7f}' <= c && c <= '\u{9f}')
}

/// A text joined from two pieces.
pub fn join2(a: &str, b: &str) -> (r: String)
    ensures
        r@ == a@ + b@,
{
    let mut out = a.to_owned();
    out.append(b);
    out
}

/// A text joined from three pieces.
pub fn join3(a: &str, b: &str, c: &str) -> (r: String)
    ensures
        r@ == a@ + b@ + c@,
{
    let mut out = a.to_owned();
    out.append(b);
    out.append(c);
    out
}

/// The bytes that a header value may hold and still be read as text: visible
/// ASCII, the blank and the tab.
pub open spec fn header_byte(b: u8) -> bool {
    32 <= b < 127 || b == 9
}

/// The text of a header value, if it can be read as text.
pub open spec fn header_text(value: Seq<u8>) -> Option<Seq<char>> {
    if forall|i: int| 0 <= i < value.len() ==> header_byte(#[trigger] value[i]) {
        Some(Seq::new(value.len(), |i: int| value[i] as char))
    } else {
        None
    }
}

/// Reads a header value as text.
pub fn read_header_text(value: &[u8]) -> (r: Option<String>)
    ensures
        match r {
            Some(t) => header_text(value@) == Some(t@),
            None => header_text(value@) is None,
        },
{
    let mut out = String::new();
    let mut i: usize = 0;
    while i < value.len()
        invariant
            i <= value@.len(),
            forall|k: int| 0 <= k < i ==> header_byte(#[trigger] value@[k]),
            out@ == Seq::new(i as nat, |k: int| value@[k] as char),
        decreases value@.len() - i,
    {
        let b = value[i];
        if !((32 <= b && b < 127) || b == 9) {
            return None;
        }
        out.push(b as char);
        i += 1;
        assert(out@ == Seq::new(i as nat, |k: int| value@[k] as char));
    }
    Some(out)
}

/// How many bytes the text takes in UTF-8.
pub open spec fn byte_len(s: Seq<char>) -> nat {
    encode_utf8(s).len()
}

/// Two texts take together the bytes that each takes.
pub proof fn lemma_bytes_of_two(a: Seq<char>, b: Seq<char>)
    ensures
        encode_utf8(a + b) == encode_utf8(a) + encode_utf8(b),
    decreases a.len(),
{
    if a.len() == 0 {
        assert(a + b == b);
        assert(encode_utf8(a) + encode_utf8(b) == encode_utf8(b));
    } else {
        lemma_bytes_of_two(a.drop_first(), b);
        assert((a + b).drop_first() == a.drop_first() + b);
        assert((a + b)[0] == a[0]);
        assert(encode_utf8(a + b) =~= encode_utf8(a) + encode_utf8(b));
    }
}

/// A stretch of a text takes no more bytes than the text.
pub proof fn lemma_stretch_is_shorter(s: Seq<char>, i: int, j: int)
    requires
        0 <= i <= j <= s.len(),
    ensures
        byte_len(s.subrange(i, j)) <= byte_len(s),
{
    assert(s == s.take(i) + s.skip(i));
    lemma_bytes_of_two(s.take(i), s.skip(i));
    assert(s.skip(i) == s.subrange(i, j) + s.skip(j));
    lemma_bytes_of_two(s.subrange(i, j), s.skip(j));
}

/// Characters below 128 are those of ASCII.
pub proof fn lemma_char_range(c: char)
    ensures
        '\0' <= c,
        (c as u32) < 128 ==> c <= '\u{7f}',
{
}

/// A text whose UTF-8 form has only bytes below 128 has only ASCII characters.
pub proof fn lemma_small_bytes_are_ascii(s: Seq<char>)
    requires
        forall|i: int| 0 <= i < encode_utf8(s).len() ==> #[trigger] encode_utf8(s)[i] < 128,
    ensures
        is_ascii_chars(s),
    decreases s.len(),
{
    if s.len() > 0 {
        let u = s[0] as u32;
        let head = encode_scalar(u);
        let rest = encode_utf8(s.drop_first());
        char_is_scalar(s[0]);
        assert(encode_utf8(s) == head + rest);
        assert(encode_utf8(s)[0] == head[0]);
        if !has_width_1_encoding(u) {
            assert(leading_byte_width_2(u) >= 128) by (bit_vector);
            assert(leading_byte_width_3(u) >= 128) by (bit_vector);
            assert(leading_byte_width_4(u) >= 128) by (bit_vector);
            assert(false);
        }
        assert forall|i: int| 0 <= i < rest.len() implies #[trigger] rest[i] < 128 by {
            assert(encode_utf8(s)[head.len() + i] == rest[i]);
        }
        lemma_small_bytes_are_ascii(s.drop_first());
        assert forall|i: int| 0 <= i < s.len() implies '\0' <= #[trigger] s[i] <= '\u{7f}' by {
            if i > 0 {
                assert(s[i] == s.drop_first()[i - 1]);
            } else {
                lemma_char_range(s[0]);
            }
        }
    }
}

proof fn lemma_trim_front_drops(front: Seq<char>, rest: Seq<char>)
    requires
        forall|i: int| 0 <= i < front.len() ==> white_space(#[trigger] front[i]),
    ensures
        trim_front(front + rest) == trim_front(rest),
    decreases front.len(),
{
    if front.len() == 0 {
        assert(front + rest == rest);
    } else {
        assert(white_space(front[0]));
        assert((front + rest)[0] == front[0]);
        assert((front + rest).drop_first() == front.drop_first() + rest);
        assert forall|i: int| 0 <= i < front.drop_first().len() implies white_space(
            #[trigger] front.drop_first()[i],
        ) by {
            assert(white_space(front[i + 1]));
        }
        lemma_trim_front_drops(front.drop_first(), rest);
    }
}

proof fn lemma_trim_back_drops(rest: Seq<char>, back: Seq<char>)
    requires
        forall|i: int| 0 <= i < back.len() ==> white_space(#[trigger] back[i]),
    ensures
        trim_back(rest + back) == trim_back(rest),
    decreases back.len(),
{
    if back.len() == 0 {
        assert(rest + back == rest);
    } else {
        assert(white_space(back[back.len() - 1]));
        assert((rest + back).last() == back.last());
        assert((rest + back).drop_last() == rest + back.drop_last());
        assert forall|i: int| 0 <= i < back.drop_last().len() implies white_space(
            #[trigger] back.drop_last()[i],
        ) by {
            assert(white_space(back[i]));
        }
        lemma_trim_back_drops(rest, back.drop_last());
    }
}

/// Trimming takes exactly the white space around a text away: what stands
/// between is left, whatever it is, as long as it neither begins nor ends
/// with white space itself.
pub proof fn law_trimming_takes_what_is_around(
    front: Seq<char>,
    inner: Seq<char>,
    back: Seq<char>,
)
    requires
        forall|i: int| 0 <= i < front.len() ==> white_space(#[trigger] front[i]),
        forall|i: int| 0 <= i < back.len() ==> white_space(#[trigger] back[i]),
        inner.len() > 0 ==> !white_space(inner[0]) && !white_space(inner[inner.len() - 1]),
    ensures
        trimmed(front + inner + back) == inner,
{
    assert(front + inner + back == front + (inner + back));
    lemma_trim_front_drops(front, inner + back);
    if inner.len() == 0 {
        assert(inner + back == back + Seq::<char>::empty());
        lemma_trim_front_drops(back, Seq::empty());
        assert(trimmed(front + inner + back) =~= inner);
    } else {
        assert((inner + back)[0] == inner[0]);
        lemma_trim_back_drops(inner, back);
    }
}

/// Making capitals small leaves a text as long as it is, moves the capitals
/// of ASCII to the letters 32 places behind them, and leaves every other
/// character where it is.
pub proof fn law_only_ascii_capitals_are_made_small(s: Seq<char>, i: int)
    requires
        0 <= i < s.len(),
    ensures
        ascii_lower(s).len() == s.len(),
        65 <= s[i] as int <= 90 ==> ascii_lower(s)[i] as int == s[i] as int + 32,
        !(65 <= s[i] as int <= 90) ==> ascii_lower(s)[i] == s[i],
{
}

/// A header value of visible ASCII, blanks and tabs is read character for
/// byte; one with any other byte is not read.
pub proof fn law_header_values_are_read_as_they_came(value: Seq<u8>)
    ensures
        (forall|i: int| 0 <= i < value.len() ==> 32 <= #[trigger] value[i] <= 126 || value[i] == 9)
            ==> (header_text(value) matches Some(text) && {
            &&& text.len() == value.len()
            &&& forall|i: int| 0 <= i < value.len() ==> #[trigger] text[i] as int == value[i] as int
        }),
        (exists|i: int|
            0 <= i < value.len() && !(32 <= #[trigger] value[i] <= 126) && value[i] != 9)
            ==> header_text(value) is None,
{
}

} // verus!
