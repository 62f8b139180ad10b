//! The byte range that a request asks for.

use vstd::prelude::*;
use vstd::slice::slice_subrange;
use vstd::string::*;

use crate::number::{decimal, digit, law_decimal_reads_back, parse_u64, u64_of};
use crate::text::{chars_of, lemma_tight_text, trim_chars, trimmed};

verus! {

/// The unit that a range header starts with.
pub open spec fn unit() -> Seq<char> {
    seq!['b', 'y', 't', 'e', 's', '=']
}

/// Whether the text starts with the unit.
pub open spec fn has_unit(s: Seq<char>) -> bool {
    s.len() >= 6 && s.take(6) == unit()
}

/// The text behind the units that it starts with.
pub open spec fn behind_unit(s: Seq<char>) -> Seq<char>
    decreases s.len(),
{
    if has_unit(s) {
        behind_unit(s.skip(6))
    } else {
        s
    }
}

/// Where the first hyphen stands, or the length of the text where it has none.
pub open spec fn first_hyphen(s: Seq<char>) -> nat
    decreases s.len(),
{
    if s.len() == 0 || s[0] == '-' {
        0
    } else {
        1 + first_hyphen(s.drop_first())
    }
}

/// The last byte that is asked for: the given one, or the last there is where
/// none is given or the given one lies behind it.
pub open spec fn range_end(s: Seq<char>, total_size: u64) -> Option<u64> {
    if s.len() == 0 {
        Some((total_size - 1) as u64)
    } else {
        match u64_of(s) {
            Some(end) => if end < total_size {
                Some(end)
            } else {
                Some((total_size - 1) as u64)
            },
            None => None,
        }
    }
}

/// The first and the last byte that a range header asks for, if it is one
/// range with a start that the `total_size` bytes can satisfy.
pub open spec fn byte_range(s: Seq<char>, total_size: u64) -> Option<(u64, u64)> {
    let range = behind_unit(s);
    let hyphen = first_hyphen(range) as int;
    if total_size == 0 || !has_unit(s) || s.contains(',') || hyphen == range.len() {
        None
    } else {
        match (
            u64_of(trimmed(range.take(hyphen))),
            range_end(trimmed(range.skip(hyphen + 1)), total_size),
        ) {
            (Some(start), Some(end)) => if start < total_size && start <= end {
                Some((start, end))
            } else {
                None
            },
            _ => None,
        }
    }
}

fn starts_with_unit(s: &[char]) -> (r: bool)
    ensures
        r == has_unit(s@),
{
    if s.len() < 6 {
        return false;
    }
    let r = s[0] == 'b' && s[1] == 'y' && s[2] == 't' && s[3] == 'e' && s[4] == 's' && s[5] == '=';
    proof {
        let head = s@.take(6);
        assert(head[0] == s@[0] && head[1] == s@[1] && head[2] == s@[2] && head[3] == s@[3]
            && head[4] == s@[4] && head[5] == s@[5]);
        if r {
            assert(head == unit());
        }
    }
    r
}

proof fn lemma_first_hyphen(s: Seq<char>, i: int)
    requires
        0 <= i <= s.len(),
        forall|k: int| 0 <= k < i ==> #[trigger] s[k] != '-',
        i < s.len() ==> s[i] == '-',
    ensures
        first_hyphen(s) == i,
    decreases s.len(),
{
    if i > 0 {
        assert forall|k: int| 0 <= k < i - 1 implies #[trigger] s.drop_first()[k] != '-' by {
            assert(s[k + 1] != '-');
        }
        assert(s[0] != '-');
        lemma_first_hyphen(s.drop_first(), i - 1);
    }
}

/// Reads the one range that a range header asks for.
pub fn parse_range_header(value: &str, total_size: u64) -> (r: Option<(u64, u64)>)
    ensures
        r == byte_range(value@, total_size),
{
    let chars = chars_of(value);
    let text = chars.as_slice();
    if total_size == 0 || !starts_with_unit(text) {
        return None;
    }
    let mut i: usize = 0;
    while i < text.len()
        invariant
            i <= text@.len(),
            text@ == value@,
            forall|k: int| 0 <= k < i ==> #[trigger] text@[k] != ',',
        decreases text@.len() - i,
    {
        if text[i] == ',' {
            assert(value@[i as int] == ',');
            return None;
        }
        i += 1;
    }
    assert(!value@.contains(','));
    let mut range = text;
    while starts_with_unit(range)
        invariant
            behind_unit(range@) == behind_unit(value@),
        decreases range@.len(),
    {
        let ghost before = range@;
        range = slice_subrange(range, 6, range.len());
        assert(range@ == before.skip(6));
    }
    let mut hyphen: usize = 0;
    while hyphen < range.len() && range[hyphen] != '-'
        invariant
            hyphen <= range@.len(),
            forall|k: int| 0 <= k < hyphen ==> #[trigger] range@[k] != '-',
        decreases range@.len() - hyphen,
    {
        hyphen += 1;
    }
    proof {
        lemma_first_hyphen(range@, hyphen as int);
    }
    if hyphen == range.len() {
        return None;
    }
    let before = slice_subrange(range, 0, hyphen);
    let behind = slice_subrange(range, hyphen + 1, range.len());
    assert(before@ == range@.take(hyphen as int));
    assert(behind@ == range@.skip(hyphen + 1));
    let start = match parse_u64(trim_chars(before)) {
        Some(start) => start,
        None => return None,
    };
    if start >= total_size {
        return None;
    }
    let last = trim_chars(behind);
    let end = if last.len() == 0 {
        total_size - 1
    } else {
        match parse_u64(last) {
            Some(end) => if end < total_size {
                end
            } else {
                total_size - 1
            },
            None => return None,
        }
    };
    if start <= end {
        Some((start, end))
    } else {
        None
    }
}

/// A range that is found lies inside what there is.
pub proof fn law_ranges_lie_inside(s: Seq<char>, total_size: u64)
    ensures
        byte_range(s, total_size) matches Some((start, end)) ==> start <= end < total_size,
{
}

proof fn lemma_range_text(first: Seq<char>, last: Seq<char>)
    requires
        forall|i: int| 0 <= i < first.len() ==> digit(#[trigger] first[i]),
        forall|i: int| 0 <= i < last.len() ==> digit(#[trigger] last[i]),
    ensures
        ({
            let range = first + seq!['-'] + last;
            let s = unit() + range;
            &&& has_unit(s)
            &&& !s.contains(',')
            &&& behind_unit(s) == range
            &&& first_hyphen(range) == first.len()
            &&& range.take(first.len() as int) == first
            &&& range.skip((first.len() + 1) as int) == last
        }),
{
    let range = first + seq!['-'] + last;
    let s = unit() + range;
    assert(s.take(6) == unit());
    assert(s.skip(6) == range);
    assert(!has_unit(range)) by {
        if has_unit(range) {
            assert(range.take(6)[0] == unit()[0]);
            if first.len() > 0 {
                assert(digit(first[0]));
            }
        }
    }
    assert(behind_unit(range) == range);
    assert forall|i: int| 0 <= i < s.len() implies s[i] != ',' by {
        if i < 6 {
            assert(s[i] == unit()[i]);
        } else if i - 6 < first.len() {
            assert(digit(first[i - 6]));
        } else if i - 6 > first.len() {
            assert(digit(last[i - 7 - first.len()]));
        }
    }
    assert forall|k: int| 0 <= k < first.len() implies #[trigger] range[k] != '-' by {
        assert(digit(first[k]));
    }
    lemma_first_hyphen(range, first.len() as int);
    assert(range.take(first.len() as int) == first);
    assert(range.skip((first.len() + 1) as int) == last);
}

proof fn lemma_number_is_tight(n: nat)
    ensures
        trimmed(decimal(n)) == decimal(n),
        decimal(n).len() > 0,
{
    law_decimal_reads_back(n);
    assert(digit(decimal(n)[0]));
    assert(digit(decimal(n)[decimal(n).len() - 1]));
    lemma_tight_text(decimal(n));
}

/// A range that is written in plain decimal numbers is read as it was
/// written, cut to what there is; one without an end reaches to the last
/// byte; one without a start is not read.
pub proof fn law_written_ranges_are_read(start: u64, end: u64, total_size: u64)
    requires
        start <= end,
        start < total_size,
    ensures
        byte_range(
            unit() + (decimal(start as nat) + seq!['-'] + decimal(end as nat)),
            total_size,
        ) == Some(
            (
                start,
                if end < total_size {
                    end
                } else {
                    (total_size - 1) as u64
                },
            ),
        ),
        byte_range(
            unit() + (decimal(start as nat) + seq!['-'] + Seq::<char>::empty()),
            total_size,
        ) == Some((start, (total_size - 1) as u64)),
        byte_range(
            unit() + (Seq::<char>::empty() + seq!['-'] + decimal(end as nat)),
            total_size,
        ) is None,
{
    let first = decimal(start as nat);
    let last = decimal(end as nat);
    let none = Seq::<char>::empty();
    law_decimal_reads_back(start as nat);
    law_decimal_reads_back(end as nat);
    lemma_number_is_tight(start as nat);
    lemma_number_is_tight(end as nat);
    lemma_range_text(first, last);
    lemma_range_text(first, none);
    lemma_range_text(none, last);
    assert(trimmed(none) == none);
    assert(u64_of(none) is None);
}

/// Two ranges in one header are not read.
pub proof fn law_several_ranges_are_not_read(s: Seq<char>, total_size: u64)
    requires
        s.contains(','),
    ensures
        byte_range(s, total_size) is None,
{
}

proof fn lemma_unit()
    ensures
        unit() == "bytes="@,
{
    reveal_strlit("bytes=");
    assert(unit() =~= "bytes="@);
}

proof fn lemma_no_comma(s: Seq<char>)
    requires
        forall|i: int| 0 <= i < s.len() ==> #[trigger] s[i] != ',',
    ensures
        !s.contains(','),
{
}

/// A header that names the unit, and then two stretches with a hyphen between
/// them, asks for the bytes from the number in the first, which may have
/// white space around it, to the number in the second, cut to what there is,
/// or to the last byte where the second is blank. It asks for nothing that
/// can be given where a stretch is something else, where the first byte is
/// not there, or where the last lies before it.
pub proof fn law_a_range_goes_from_one_number_to_the_other(
    first: Seq<char>,
    last: Seq<char>,
    total_size: u64,
)
    requires
        forall|i: int| 0 <= i < first.len() ==> #[trigger] first[i] != '-' && first[i] != ',',
        forall|i: int| 0 <= i < last.len() ==> #[trigger] last[i] != ',',
        first.len() >= 6 ==> first.take(6) != "bytes="@,
    ensures
        ({
            let asked = byte_range("bytes="@ + first + seq!['-'] + last, total_size);
            &&& u64_of(trimmed(first)) is None ==> asked is None
            &&& trimmed(last).len() > 0 && u64_of(trimmed(last)) is None ==> asked is None
            &&& total_size == 0 ==> asked is None
            &&& u64_of(trimmed(first)) matches Some(a) ==> {
                &&& a >= total_size ==> asked is None
                &&& a < total_size && trimmed(last).len() == 0 ==> asked == Some(
                    (a, (total_size - 1) as u64),
                )
                &&& (trimmed(last).len() > 0 && u64_of(trimmed(last)) is Some) ==> {
                    let b = u64_of(trimmed(last))->0;
                    &&& b < a ==> asked is None
                    &&& a <= b < total_size ==> asked == Some((a, b))
                    &&& a < total_size <= b ==> asked == Some((a, (total_size - 1) as u64))
                }
            }
        }),
{
    lemma_unit();
    let range = first + seq!['-'] + last;
    let s = unit() + range;
    assert("bytes="@ + first + seq!['-'] + last =~= s);
    assert(s.take(6) =~= unit());
    assert(s.skip(6) =~= range);
    assert(!has_unit(range)) by {
        if has_unit(range) {
            if first.len() >= 6 {
                assert(range.take(6) =~= first.take(6));
            } else {
                assert(range.take(6)[first.len() as int] == '-');
                assert(unit()[first.len() as int] != '-');
            }
        }
    }
    assert(behind_unit(range) == range);
    assert(behind_unit(s) == range);
    assert forall|i: int| 0 <= i < s.len() implies #[trigger] s[i] != ',' by {
        if i < 6 {
            assert(s[i] == unit()[i]);
        } else if i - 6 < first.len() {
            assert(first[i - 6] != ',');
        } else if i - 6 > first.len() {
            assert(last[i - 7 - first.len()] != ',');
        }
    }
    lemma_no_comma(s);
    assert forall|k: int| 0 <= k < first.len() implies #[trigger] range[k] != '-' by {
        assert(first[k] != '-');
    }
    lemma_first_hyphen(range, first.len() as int);
    assert(range.take(first.len() as int) =~= first);
    assert(range.skip((first.len() + 1) as int) =~= last);
    if trimmed(last).len() == 0 {
        assert(range_end(trimmed(last), total_size) == Some((total_size - 1) as u64));
    }
}

proof fn lemma_no_hyphen(s: Seq<char>)
    requires
        forall|i: int| 0 <= i < s.len() ==> #[trigger] s[i] != '-',
    ensures
        first_hyphen(behind_unit(s)) == behind_unit(s).len(),
    decreases s.len(),
{
    if has_unit(s) {
        assert forall|i: int| 0 <= i < s.skip(6).len() implies #[trigger] s.skip(6)[i] != '-' by {
            assert(s[i + 6] != '-');
        }
        lemma_no_hyphen(s.skip(6));
    } else {
        lemma_first_hyphen(s, s.len() as int);
    }
}

/// A text that does not begin with the unit, or has no hyphen, asks for
/// nothing that can be given; a unit that is written again makes no
/// difference.
pub proof fn law_a_range_has_a_unit_and_a_hyphen(s: Seq<char>, total_size: u64)
    ensures
        s.len() < 6 || s.take(6) != "bytes="@ ==> byte_range(s, total_size) is None,
        (forall|i: int| 0 <= i < s.len() ==> #[trigger] s[i] != '-') ==> byte_range(
            s,
            total_size,
        ) is None,
        s.len() >= 6 && s.take(6) == "bytes="@ ==> byte_range("bytes="@ + s, total_size)
            == byte_range(s, total_size),
{
    lemma_unit();
    if forall|i: int| 0 <= i < s.len() ==> #[trigger] s[i] != '-' {
        lemma_no_hyphen(s);
    }
    if has_unit(s) {
        let twice = unit() + s;
        assert(twice.take(6) =~= unit());
        assert(twice.skip(6) =~= s);
        if s.contains(',') {
            let k = choose|k: int| 0 <= k < s.len() && s[k] == ',';
            assert(twice[k + 6] == ',');
        }
        if twice.contains(',') {
            let k = choose|k: int| 0 <= k < twice.len() && twice[k] == ',';
            if k < 6 {
                assert(twice[k] == unit()[k]);
            } else {
                assert(s[k - 6] == ',');
            }
        }
    }
}

} // verus!
