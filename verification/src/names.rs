//! File names that uploads are stored under.

use vstd::prelude::*;
use vstd::slice::slice_subrange;
use vstd::string::*;

use crate::text::{
    chars_of, control, is_control, law_trimming_takes_what_is_around, lemma_trimmed_is_inside,
    same_text, trim_chars, trimmed, white_space,
};

verus! {

/// The longest file name, in characters.
pub const MAX_UPLOAD_FILENAME_CHARS: usize = 255;

/// The characters that part directories from one another.
pub open spec fn separator(c: char) -> bool {
    c == '/' || c == '\\'
}

/// What stands behind the last separator.
pub open spec fn basename(s: Seq<char>) -> Seq<char>
    decreases s.len(),
{
    if s.len() == 0 {
        s
    } else if separator(s.last()) {
        Seq::empty()
    } else {
        basename(s.drop_last()).push(s.last())
    }
}

/// The name without the control characters in it, cut to the longest length
/// that a file name has.
pub open spec fn cleaned(s: Seq<char>) -> Seq<char> {
    let kept = s.filter(|c: char| !control(c));
    if kept.len() <= MAX_UPLOAD_FILENAME_CHARS {
        kept
    } else {
        kept.take(MAX_UPLOAD_FILENAME_CHARS as int)
    }
}

/// The name that an upload is stored under when its client calls it `s`.
pub open spec fn safe_name(s: Seq<char>) -> Seq<char> {
    let name = cleaned(trimmed(basename(s)));
    if name.len() == 0 || name == "."@ || name == ".."@ {
        "file"@
    } else {
        name
    }
}

proof fn lemma_basename_behind(s: Seq<char>, i: int)
    requires
        0 <= i <= s.len(),
        forall|k: int| i <= k < s.len() ==> !separator(#[trigger] s[k]),
        i > 0 ==> separator(s[i - 1]),
    ensures
        basename(s) == s.skip(i),
    decreases s.len(),
{
    if s.len() > i {
        lemma_basename_behind(s.drop_last(), i);
        assert(basename(s) == s.skip(i));
    } else {
        assert(s.skip(i) == Seq::<char>::empty());
    }
}

/// Reduces a file name that a client sent to a bare name: without directories
/// and control characters, not too long, and never empty.
pub fn sanitise_upload_filename(value: &str) -> (r: String)
    ensures
        r@ == safe_name(value@),
{
    let chars = chars_of(value);
    let mut from: usize = chars.len();
    while from > 0 && chars[from - 1] != '/' && chars[from - 1] != '\\'
        invariant
            from <= chars@.len(),
            forall|k: int| from <= k < chars@.len() ==> !separator(#[trigger] chars@[k]),
        decreases from,
    {
        from -= 1;
    }
    let base = slice_subrange(chars.as_slice(), from, chars.len());
    proof {
        lemma_basename_behind(chars@, from as int);
        assert(base@ == basename(value@));
    }
    let name = trim_chars(base);
    let ghost keep = |c: char| !control(c);
    let mut out = String::new();
    let mut count: usize = 0;
    let mut i: usize = 0;
    assert(name@.take(0).filter(keep) == Seq::<char>::empty()) by {
        reveal(Seq::filter);
    }
    while i < name.len() && count < MAX_UPLOAD_FILENAME_CHARS
        invariant
            i <= name@.len(),
            count == out@.len(),
            count <= MAX_UPLOAD_FILENAME_CHARS,
            keep == (|c: char| !control(c)),
            out@ == name@.take(i as int).filter(keep),
        decreases name@.len() - i,
    {
        let c = name[i];
        proof {
            reveal(Seq::filter);
            assert(name@.take(i + 1).drop_last() == name@.take(i as int));
        }
        if !is_control(c) {
            out.push(c);
            count += 1;
        }
        i += 1;
    }
    proof {
        assert(name@ == name@.take(i as int) + name@.skip(i as int));
        Seq::filter_distributes_over_add(name@.take(i as int), name@.skip(i as int), keep);
        if i == name@.len() {
            reveal(Seq::filter);
            assert(name@.skip(i as int) == Seq::<char>::empty());
        }
        let whole = name@.filter(keep);
        assert(whole.take(out@.len() as int) == out@);
        assert(out@ == cleaned(name@));
    }
    if count == 0 || same_text(out.as_str(), ".") || same_text(out.as_str(), "..") {
        "file".to_owned()
    } else {
        out
    }
}

proof fn lemma_filter_keeps(s: Seq<char>, keep: spec_fn(char) -> bool, bad: spec_fn(char) -> bool)
    requires
        forall|k: int| 0 <= k < s.len() ==> !bad(#[trigger] s[k]),
    ensures
        forall|k: int| 0 <= k < s.filter(keep).len() ==> #[trigger] keep(s.filter(keep)[k]),
        forall|k: int| 0 <= k < s.filter(keep).len() ==> !bad(#[trigger] s.filter(keep)[k]),
    decreases s.len(),
{
    reveal(Seq::filter);
    if s.len() > 0 {
        let rest = s.drop_last();
        assert forall|k: int| 0 <= k < rest.len() implies !bad(#[trigger] rest[k]) by {
            assert(rest[k] == s[k]);
        }
        assert(!bad(s[s.len() - 1]));
        lemma_filter_keeps(rest, keep, bad);
        let kept = s.filter(keep);
        assert forall|k: int| 0 <= k < kept.len() implies !bad(#[trigger] kept[k]) by {
            if k < rest.filter(keep).len() {
                assert(kept[k] == rest.filter(keep)[k]);
            }
        }
    }
}

proof fn lemma_basename_has_no_separator(s: Seq<char>)
    ensures
        forall|k: int| 0 <= k < basename(s).len() ==> !separator(#[trigger] basename(s)[k]),
    decreases s.len(),
{
    if s.len() > 0 && !separator(s.last()) {
        let rest = basename(s.drop_last());
        lemma_basename_has_no_separator(s.drop_last());
        assert forall|k: int| 0 <= k < basename(s).len() implies !separator(
            #[trigger] basename(s)[k],
        ) by {
            if k < rest.len() {
                assert(basename(s)[k] == rest[k]);
            }
        }
    } else {
        assert(basename(s).len() == 0);
    }
}

/// Whatever a client calls its file, the stored name is not empty, has at
/// most 255 characters, holds no separator and no control character, and
/// names neither the directory it lies in nor the one above.
pub proof fn law_stored_names_are_safe(s: Seq<char>)
    ensures
        1 <= safe_name(s).len() <= MAX_UPLOAD_FILENAME_CHARS,
        forall|k: int|
            0 <= k < safe_name(s).len() ==> !separator(#[trigger] safe_name(s)[k])
                && !control(safe_name(s)[k]),
        safe_name(s) != "."@,
        safe_name(s) != ".."@,
{
    reveal_strlit("file");
    reveal_strlit(".");
    reveal_strlit("..");
    let base = basename(s);
    let name = trimmed(base);
    let keep = |c: char| !control(c);
    let bad = |c: char| separator(c);
    lemma_basename_has_no_separator(s);
    lemma_trimmed_is_inside(base);
    let (i, j) = choose|i: int, j: int| 0 <= i <= j <= base.len() && name == #[trigger] base.subrange(i, j);
    assert forall|k: int| 0 <= k < name.len() implies !bad(#[trigger] name[k]) by {
        assert(name[k] == base[i + k]);
    }
    lemma_filter_keeps(name, keep, bad);
    let kept = name.filter(keep);
    assert forall|k: int| 0 <= k < kept.len() implies !separator(#[trigger] kept[k])
        && !control(kept[k]) by {
        assert(keep(kept[k]));
        assert(!bad(kept[k]));
    }
    assert(safe_name(s) != "."@ && safe_name(s) != ".."@) by {
        assert("file"@.len() == 4);
    }
}

proof fn lemma_basename_of_two(dir: Seq<char>, name: Seq<char>)
    requires
        dir.len() > 0,
        separator(dir.last()),
    ensures
        basename(dir + name) == basename(name),
    decreases name.len(),
{
    if name.len() == 0 {
        assert(dir + name == dir);
    } else {
        assert((dir + name).last() == name.last());
        assert((dir + name).drop_last() == dir + name.drop_last());
        lemma_basename_of_two(dir, name.drop_last());
    }
}

/// The directories that a client puts before the name of its file, parted by
/// either separator, make no difference.
pub proof fn law_directories_make_no_difference(dir: Seq<char>, parting: char, name: Seq<char>)
    requires
        parting == '/' || parting == '\\',
    ensures
        safe_name(dir.push(parting) + name) == safe_name(name),
{
    lemma_basename_of_two(dir.push(parting), name);
}

/// The white space around the name of a file makes no difference.
pub proof fn law_white_space_around_names_makes_no_difference(
    front: Seq<char>,
    name: Seq<char>,
    back: Seq<char>,
)
    requires
        forall|i: int| 0 <= i < front.len() ==> white_space(#[trigger] front[i]),
        forall|i: int| 0 <= i < back.len() ==> white_space(#[trigger] back[i]),
        name.len() > 0 ==> !white_space(name[0]) && !white_space(name[name.len() - 1]),
        forall|i: int| 0 <= i < name.len() ==> #[trigger] name[i] != '/' && name[i] != '\\',
    ensures
        safe_name(front + name + back) == safe_name(name),
{
    let whole = front + name + back;
    assert forall|k: int| 0 <= k < whole.len() implies !separator(#[trigger] whole[k]) by {
        if k < front.len() {
            assert(white_space(front[k]));
        } else if k < front.len() + name.len() {
            assert(name[k - front.len()] != '/');
        } else {
            assert(white_space(back[k - front.len() - name.len()]));
        }
    }
    lemma_basename_behind(whole, 0);
    assert(whole.skip(0) == whole);
    assert forall|k: int| 0 <= k < name.len() implies !separator(#[trigger] name[k]) by {}
    lemma_basename_behind(name, 0);
    assert(name.skip(0) == name);
    law_trimming_takes_what_is_around(front, name, back);
    let none = Seq::<char>::empty();
    law_trimming_takes_what_is_around(none, name, none);
    assert(none + name + none == name);
}

/// A bare name, without separators and without white space around it, loses
/// its control characters and what stands behind its first 255 others, and
/// nothing else; only where nothing is left, or a name of a directory, the
/// file is called `file`.
pub proof fn law_bare_names_are_kept(name: Seq<char>)
    requires
        name.len() > 0 ==> !white_space(name[0]) && !white_space(name[name.len() - 1]),
        forall|i: int| 0 <= i < name.len() ==> #[trigger] name[i] != '/' && name[i] != '\\',
    ensures
        ({
            let kept = name.filter(|c: char| !(c as int <= 31 || 127 <= c as int <= 159));
            &&& kept.len() == 0 || kept == seq!['.'] || kept == seq!['.', '.'] ==> safe_name(name)
                == "file"@
            &&& 0 < kept.len() <= 255 && kept != seq!['.'] && kept != seq!['.', '.']
                ==> safe_name(name) == kept
            &&& kept.len() > 255 ==> safe_name(name) == kept.take(255)
        }),
{
    reveal_strlit(".");
    reveal_strlit("..");
    assert("."@ =~= seq!['.']);
    assert(".."@ =~= seq!['.', '.']);
    assert forall|k: int| 0 <= k < name.len() implies !separator(#[trigger] name[k]) by {}
    lemma_basename_behind(name, 0);
    assert(name.skip(0) == name);
    let none = Seq::<char>::empty();
    law_trimming_takes_what_is_around(none, name, none);
    assert(none + name + none == name);
    let keep = |c: char| !control(c);
    let other = |c: char| !(c as int <= 31 || 127 <= c as int <= 159);
    assert forall|c: char| #[trigger] keep(c) == other(c) by {}
    assert(keep =~= other);
}

/// A name that holds no separator and no control character, has no white
/// space around it, is not too long and does not name a directory is kept as
/// it is.
pub proof fn law_plain_names_are_kept(name: Seq<char>)
    requires
        1 <= name.len() <= 255,
        !white_space(name[0]),
        !white_space(name[name.len() - 1]),
        forall|i: int|
            0 <= i < name.len() ==> #[trigger] name[i] != '/' && name[i] != '\\' && !(name[i] as int
                <= 31 || 127 <= name[i] as int <= 159),
        name != seq!['.'],
        name != seq!['.', '.'],
    ensures
        safe_name(name) == name,
{
    law_bare_names_are_kept(name);
    let other = |c: char| !(c as int <= 31 || 127 <= c as int <= 159);
    assert forall|i: int| 0 <= i < name.len() implies other(#[trigger] name[i]) by {
        assert(name[i] != '/');
    }
    lemma_filter_of_kept(name, other);
}

proof fn lemma_filter_of_kept(s: Seq<char>, keep: spec_fn(char) -> bool)
    requires
        forall|i: int| 0 <= i < s.len() ==> keep(#[trigger] s[i]),
    ensures
        s.filter(keep) == s,
    decreases s.len(),
{
    reveal(Seq::filter);
    if s.len() > 0 {
        assert(keep(s[s.len() - 1]));
        assert forall|i: int| 0 <= i < s.drop_last().len() implies keep(
            #[trigger] s.drop_last()[i],
        ) by {
            assert(keep(s[i]));
        }
        lemma_filter_of_kept(s.drop_last(), keep);
        assert(s.filter(keep) =~= s);
    } else {
        assert(s.filter(keep) =~= s);
    }
}

} // verus!
