//! File names that a peer may choose.
//!
//! Names are reduced to a single path segment of ASCII letters, digits, `.`,
//! `-`, and `_`, so an offer cannot escape the download directory.

use vstd::prelude::*;
use vstd::string::*;
use vstd::slice::*;

use crate::text::{alphanumeric, chars_of, is_alphanumeric, kept, kept_by_character, string_of};

verus! {

pub const MAX_NAME_CHARS: usize = 120;

/// What a name is that leaves nothing of itself.
pub open spec fn fallback() -> Seq<char> {
    "file.bin"@
}

pub open spec fn is_name_char(c: char) -> bool {
    is_alphanumeric(c) || c == '.' || c == '-' || c == '_'
}

/// Where the last path separator is, or -1.
pub open spec fn last_slash(s: Seq<char>) -> int
    decreases s.len(),
{
    if s.len() == 0 {
        -1
    } else if s.last() == '/' {
        s.len() - 1
    } else {
        last_slash(s.drop_last())
    }
}

/// The last segment of a path that is neither empty nor `.`, as long as there is
/// another one before it.
pub open spec fn last_segment(s: Seq<char>) -> Seq<char>
    decreases s.len(),
{
    let k = last_slash(s);
    let segment = s.skip(k + 1);
    if 0 <= k < s.len() && (segment.len() == 0 || segment == seq!['.']) {
        last_segment(s.take(k))
    } else {
        segment
    }
}

/// The file that a path names, where it names one.
pub open spec fn base_name(s: Seq<char>) -> Seq<char> {
    let segment = last_segment(s);
    if segment.len() == 0 || segment == seq!['.'] || segment == seq!['.', '.'] {
        fallback()
    } else {
        segment
    }
}

/// `s` without dots at either end.
pub open spec fn without_dots(s: Seq<char>) -> Seq<char>
    decreases s.len(),
{
    if s.len() > 0 && s[0] == '.' {
        without_dots(s.drop_first())
    } else if s.len() > 0 && s.last() == '.' {
        without_dots(s.drop_last())
    } else {
        s
    }
}

pub open spec fn first_chars(s: Seq<char>, n: nat) -> Seq<char> {
    if s.len() <= n {
        s
    } else {
        s.take(n as int)
    }
}

/// The name that a file gets: of the base name, the allowed characters, at most
/// [`MAX_NAME_CHARS`] of them, without dots at either end.
pub open spec fn sanitized(s: Seq<char>) -> Seq<char> {
    let clean = without_dots(
        first_chars(kept(base_name(s), |c: char| is_name_char(c)), MAX_NAME_CHARS as nat),
    );
    if clean.len() == 0 {
        fallback()
    } else {
        clean
    }
}

fn name_char(c: char) -> (r: bool)
    ensures
        r == is_name_char(c),
{
    alphanumeric(c) || c == '.' || c == '-' || c == '_'
}

/// The place behind the last separator.
fn after_slash(chars: &[char]) -> (r: usize)
    ensures
        r == last_slash(chars@) + 1,
        r <= chars@.len(),
{
    let mut i: usize = chars.len();
    assert(chars@.take(i as int) =~= chars@);
    while i > 0 && chars[i - 1] != '/'
        invariant
            i <= chars@.len(),
            last_slash(chars@) == last_slash(chars@.take(i as int)),
        decreases i,
    {
        assert(chars@.take(i as int).drop_last() =~= chars@.take(i - 1));
        i -= 1;
    }
    i
}

/// The file that a path names, or `file.bin`.
fn base_of(name: &str) -> (r: Vec<char>)
    ensures
        r@ == base_name(name@),
{
    let chars = chars_of(name);
    let mut end: usize = chars.len();
    let mut start: usize = after_slash(chars.as_slice());
    assert(chars@.take(end as int) =~= chars@);
    assert(chars@.skip(start as int) =~= chars@.subrange(start as int, end as int));
    while start > 0 && (start == end || (end - start == 1 && chars[start] == '.'))
        invariant
            chars@ == name@,
            start <= end <= chars@.len(),
            last_segment(chars@) == last_segment(chars@.take(end as int)),
            start == last_slash(chars@.take(end as int)) + 1,
        decreases start,
    {
        let ghost here = chars@.take(end as int);
        proof {
            assert(here.skip(start as int) =~= chars@.subrange(start as int, end as int));
            if start != end {
                assert(here.skip(start as int) =~= seq!['.']);
            }
            assert(here.take(start - 1) =~= chars@.take(start - 1));
        }
        end = start - 1;
        let part = slice_subrange(chars.as_slice(), 0, end);
        assert(part@ =~= chars@.take(end as int));
        start = after_slash(part);
    }
    let ghost here = chars@.take(end as int);
    let segment = slice_subrange(chars.as_slice(), start, end);
    proof {
        assert(segment@ =~= here.skip(start as int));
        reveal_strlit("file.bin");
        if segment@ == seq!['.'] {
            assert(segment@.len() == 1 && segment@[0] == '.');
        }
        if segment@ == seq!['.', '.'] {
            assert(segment@.len() == 2 && segment@[0] == '.' && segment@[1] == '.');
        }
    }
    let n: usize = segment.len();
    if n == 0 || (n == 1 && segment[0] == '.') || (n == 2 && segment[0] == '.' && segment[1]
        == '.') {
        proof {
            if n == 1 {
                assert(segment@ =~= seq!['.']);
            }
            if n == 2 {
                assert(segment@ =~= seq!['.', '.']);
            }
        }
        return chars_of("file.bin");
    }
    slice_to_vec(segment)
}

/// Reduces a name to one safe path segment.
pub fn sanitize_file_name(name: &str) -> (r: String)
    ensures
        r@ == sanitized(name@),
{
    let base = base_of(name);
    let ghost keep = |c: char| is_name_char(c);
    let mut clean: Vec<char> = Vec::new();
    assert(first_chars(kept(base@.take(0), keep), MAX_NAME_CHARS as nat) =~= clean@);
    for i in 0..base.len()
        invariant
            keep == (|c: char| is_name_char(c)),
            clean@ == first_chars(kept(base@.take(i as int), keep), MAX_NAME_CHARS as nat),
            clean@.len() <= MAX_NAME_CHARS,
    {
        proof {
            assert(base@.take(i + 1).drop_last() =~= base@.take(i as int));
        }
        let ghost before = kept(base@.take(i as int), keep);
        let c = base[i];
        if name_char(c) {
            if clean.len() < MAX_NAME_CHARS {
                clean.push(c);
            }
            assert(clean@ =~= first_chars(before.push(c), MAX_NAME_CHARS as nat));
        }
    }
    assert(base@.take(base@.len() as int) =~= base@);
    let mut from: usize = 0;
    let mut to: usize = clean.len();
    assert(clean@.subrange(0, to as int) =~= clean@);
    while from < to && clean[from] == '.'
        invariant
            from <= to,
            to == clean@.len(),
            without_dots(clean@) == without_dots(clean@.subrange(from as int, to as int)),
        decreases to - from,
    {
        assert(clean@.subrange(from as int, to as int).drop_first() =~= clean@.subrange(
            from + 1,
            to as int,
        ));
        from += 1;
    }
    while from < to && clean[to - 1] == '.'
        invariant
            from <= to <= clean@.len(),
            from < to ==> clean@[from as int] != '.',
            without_dots(clean@) == without_dots(clean@.subrange(from as int, to as int)),
        decreases to,
    {
        assert(clean@.subrange(from as int, to as int).drop_last() =~= clean@.subrange(
            from as int,
            to - 1,
        ));
        to -= 1;
    }
    let part = slice_subrange(clean.as_slice(), from, to);
    if from == to {
        return "file.bin".to_owned();
    }
    string_of(part)
}

/// Whether a text is one path segment that stays in its directory: not empty,
/// of name characters only, and neither `.` nor `..`.
pub open spec fn is_safe_segment(s: Seq<char>) -> bool {
    &&& 0 < s.len() <= MAX_NAME_CHARS
    &&& forall|i: int| 0 <= i < s.len() ==> is_name_char(#[trigger] s[i])
    &&& s[0] != '.'
    &&& s.last() != '.'
}

proof fn kept_holds(s: Seq<char>, keep: spec_fn(char) -> bool)
    ensures
        forall|i: int| 0 <= i < kept(s, keep).len() ==> keep(#[trigger] kept(s, keep)[i]),
    decreases s.len(),
{
    if s.len() > 0 {
        kept_holds(s.drop_last(), keep);
        let before = kept(s.drop_last(), keep);
        assert forall|i: int| 0 <= i < kept(s, keep).len() implies keep(
            #[trigger] kept(s, keep)[i],
        ) by {
            if i < before.len() {
                assert(keep(before[i]));
            }
        }
    }
}

proof fn kept_all(s: Seq<char>, keep: spec_fn(char) -> bool)
    requires
        forall|i: int| 0 <= i < s.len() ==> keep(#[trigger] s[i]),
    ensures
        kept(s, keep) == s,
    decreases s.len(),
{
    if s.len() > 0 {
        assert forall|i: int| 0 <= i < s.drop_last().len() implies keep(
            #[trigger] s.drop_last()[i],
        ) by {
            assert(s.drop_last()[i] == s[i]);
        }
        kept_all(s.drop_last(), keep);
        assert(s.drop_last().push(s.last()) =~= s);
    } else {
        assert(kept(s, keep) =~= s);
    }
}

proof fn without_dots_part(s: Seq<char>)
    ensures
        without_dots(s).len() <= s.len(),
        without_dots(s).len() > 0 ==> without_dots(s)[0] != '.' && without_dots(s).last() != '.',
        (forall|i: int| 0 <= i < s.len() ==> is_name_char(#[trigger] s[i])) ==> forall|i: int|
            0 <= i < without_dots(s).len() ==> is_name_char(#[trigger] without_dots(s)[i]),
    decreases s.len(),
{
    if s.len() > 0 && s[0] == '.' {
        let t = s.drop_first();
        without_dots_part(t);
        if forall|i: int| 0 <= i < s.len() ==> is_name_char(#[trigger] s[i]) {
            assert forall|i: int| 0 <= i < t.len() implies is_name_char(#[trigger] t[i]) by {
                assert(t[i] == s[i + 1]);
            }
        }
    } else if s.len() > 0 && s.last() == '.' {
        let t = s.drop_last();
        without_dots_part(t);
        if forall|i: int| 0 <= i < s.len() ==> is_name_char(#[trigger] s[i]) {
            assert forall|i: int| 0 <= i < t.len() implies is_name_char(#[trigger] t[i]) by {
                assert(t[i] == s[i]);
            }
        }
    }
}

/// Whatever name a peer offers, the file's name is one safe path segment.
pub proof fn sanitized_is_safe(s: Seq<char>)
    ensures
        is_safe_segment(sanitized(s)),
{
    reveal_strlit("file.bin");
    let keep = |c: char| is_name_char(c);
    let all = kept(base_name(s), keep);
    kept_holds(base_name(s), keep);
    let few = first_chars(all, MAX_NAME_CHARS as nat);
    assert forall|i: int| 0 <= i < few.len() implies is_name_char(#[trigger] few[i]) by {
        assert(few[i] == all[i]);
        assert(keep(all[i]));
    }
    without_dots_part(few);
}

proof fn no_slash(s: Seq<char>)
    requires
        forall|i: int| 0 <= i < s.len() ==> s[i] != '/',
    ensures
        last_slash(s) == -1,
    decreases s.len(),
{
    if s.len() > 0 {
        no_slash(s.drop_last());
    }
}

/// A safe name is left as it is, so cleaning twice is cleaning once.
pub proof fn sanitized_is_stable(s: Seq<char>)
    requires
        is_safe_segment(s),
    ensures
        sanitized(s) == s,
{
    let keep = |c: char| is_name_char(c);
    assert forall|i: int| 0 <= i < s.len() implies s[i] != '/' by {
        assert(is_name_char(s[i]));
    }
    no_slash(s);
    assert(s.skip(0) =~= s);
    assert(base_name(s) == s);
    assert forall|i: int| 0 <= i < s.len() implies keep(#[trigger] s[i]) by {
        assert(is_name_char(s[i]));
    }
    kept_all(s, keep);
}

/// A name is what stands behind the last slash of a path.
pub proof fn directories_do_not_count(dir: Seq<char>, name: Seq<char>)
    requires
        is_safe_segment(name),
    ensures
        sanitized(dir.push('/') + name) == name,
{
    let s = dir.push('/') + name;
    assert forall|i: int| 0 <= i < name.len() implies name[i] != '/' by {
        assert(is_name_char(name[i]));
    }
    slash_before(dir, name);
    assert(s.skip(dir.len() as int + 1) =~= name);
    assert(name != seq!['.']) by {
        if name == seq!['.'] {
            assert(name[0] == '.');
        }
    }
    assert(last_segment(s) == name);
    sanitized_is_stable(name);
    no_slash(name);
    assert(name.skip(0) =~= name);
}

proof fn slash_before(dir: Seq<char>, name: Seq<char>)
    requires
        forall|i: int| 0 <= i < name.len() ==> name[i] != '/',
    ensures
        last_slash(dir.push('/') + name) == dir.len(),
    decreases name.len(),
{
    let s = dir.push('/') + name;
    if name.len() > 0 {
        slash_before(dir, name.drop_last());
        assert(s.drop_last() =~= dir.push('/') + name.drop_last());
        assert(s.last() == name.last());
    } else {
        assert(s =~= dir.push('/'));
    }
}

/// The characters that a name keeps are the letters and digits of ASCII, the dot, the
/// hyphen and the underscore; it has at most 120 of them, and what keeps none is called
/// `file.bin`.
pub proof fn names_keep_their_characters(s: Seq<char>, c: char)
    ensures
        is_name_char(c) <==> (48 <= c as u32 <= 57 || 65 <= c as u32 <= 90 || 97 <= c as u32 <= 122
            || c as u32 == 46 || c as u32 == 45 || c as u32 == 95),
        sanitized(s).len() <= 120,
        sanitized(seq![]) == "file.bin"@,
        (forall|i: int| 0 <= i < s.len() ==> s[i] != '/' && !is_name_char(#[trigger] s[i]))
            ==> sanitized(s) == "file.bin"@,
{
    sanitized_is_safe(s);
    reveal_strlit("file.bin");
    let f = "file.bin"@;
    assert(is_safe_segment(f)) by {
        assert forall|i: int| 0 <= i < f.len() implies is_name_char(#[trigger] f[i]) by {}
    }
    no_slash(Seq::<char>::empty());
    assert(Seq::<char>::empty().skip(0) =~= Seq::<char>::empty());
    sanitized_is_stable(f);
    let keep = |c: char| is_name_char(c);
    assert forall|i: int| 0 <= i < f.len() implies keep(#[trigger] f[i]) by {
        assert(is_name_char(f[i]));
    }
    kept_all(f, keep);
    assert(base_name(Seq::<char>::empty()) == f);
    if forall|i: int| 0 <= i < s.len() ==> s[i] != '/' && !is_name_char(#[trigger] s[i]) {
        assert forall|i: int| 0 <= i < s.len() implies s[i] != '/' by {
            assert(!is_name_char(s[i]));
        }
        no_slash(s);
        assert(s.skip(0) =~= s);
        kept_none(s, keep);
    }
}

proof fn kept_none(s: Seq<char>, keep: spec_fn(char) -> bool)
    requires
        forall|i: int| 0 <= i < s.len() ==> !keep(#[trigger] s[i]),
    ensures
        kept(s, keep).len() == 0,
    decreases s.len(),
{
    if s.len() > 0 {
        assert forall|i: int| 0 <= i < s.drop_last().len() implies !keep(
            #[trigger] s.drop_last()[i],
        ) by {
            assert(s.drop_last()[i] == s[i]);
        }
        kept_none(s.drop_last(), keep);
        assert(!keep(s[s.len() - 1]));
    }
}

/// Characters that a name cannot have are left out of it, wherever they stand, and the
/// others stay in their order.
pub proof fn other_characters_are_left_out(a: Seq<char>, c: char, b: Seq<char>)
    requires
        is_safe_segment(a + b),
        a.len() > 0,
        !is_name_char(c),
        c != '/',
    ensures
        sanitized(a.push(c) + b) == a + b,
{
    let s = a.push(c) + b;
    let t = a + b;
    let keep = |x: char| is_name_char(x);
    assert forall|i: int| 0 <= i < s.len() implies s[i] != '/' by {
        if i < a.len() {
            assert(s[i] == t[i]);
            assert(is_name_char(t[i]));
        } else if i > a.len() {
            assert(s[i] == t[i - 1]);
            assert(is_name_char(t[i - 1]));
        }
    }
    no_slash(s);
    assert(s.skip(0) =~= s);
    assert(s[0] == t[0]);
    assert(base_name(s) == s);
    assert forall|i: int| 0 <= i < t.len() implies keep(#[trigger] t[i]) by {
        assert(is_name_char(t[i]));
    }
    kept_all(t, keep);
    kept_by_character(a.push(c), b, c, keep);
    kept_by_character(a, seq![c], c, keep);
    kept_by_character(a, b, c, keep);
    assert(a.push(c) =~= a + seq![c]);
    assert(kept(a, keep) + Seq::<char>::empty() =~= kept(a, keep));
}

/// A path that ends in slashes, or in a segment that stands for its own directory, names
/// what is before them.
pub proof fn ends_of_directories_do_not_count(name: Seq<char>)
    requires
        is_safe_segment(name),
    ensures
        sanitized(name.push('/')) == name,
        sanitized(name + seq!['/', '.']) == name,
{
    assert forall|i: int| 0 <= i < name.len() implies name[i] != '/' by {
        assert(is_name_char(name[i]));
    }
    no_slash(name);
    assert(name.skip(0) =~= name);
    sanitized_is_stable(name);
    let a = name.push('/');
    assert(a.skip(a.len() as int) =~= Seq::<char>::empty());
    assert(a.take(name.len() as int) =~= name);
    assert(last_slash(a) == name.len());
    assert(last_segment(a) == last_segment(name));
    let b = name + seq!['/', '.'];
    slash_before(name, seq!['.']);
    assert(b =~= name.push('/') + seq!['.']);
    assert(b.skip(name.len() as int + 1) =~= seq!['.']);
    assert(b.take(name.len() as int) =~= name);
    assert(last_segment(b) == last_segment(name));
    assert(base_name(a) == base_name(name));
    assert(base_name(b) == base_name(name));
}

/// Dots at the ends of a name are left out of it.
pub proof fn dots_at_the_ends_are_left_out(name: Seq<char>)
    requires
        is_safe_segment(name),
        name.len() <= 118,
    ensures
        sanitized(seq!['.'] + name + seq!['.']) == name,
{
    let s = seq!['.'] + name + seq!['.'];
    let keep = |c: char| is_name_char(c);
    assert forall|i: int| 0 <= i < s.len() implies keep(#[trigger] s[i]) && s[i] != '/' by {
        if 0 < i < s.len() - 1 {
            assert(s[i] == name[i - 1]);
            assert(is_name_char(name[i - 1]));
        }
    }
    no_slash(s);
    assert(s.skip(0) =~= s);
    assert(s[1] == name[0]);
    assert(base_name(s) == s) by {
        if s == seq!['.', '.'] {
            assert(s[1] == '.');
        }
    }
    kept_all(s, keep);
    reveal_with_fuel(without_dots, 3);
    assert(s.drop_first() =~= name + seq!['.']);
    assert(s.drop_first()[0] == name[0]);
    assert(s.drop_first().drop_last() =~= name);
}

/// Of a long name the first 120 characters are kept.
pub proof fn long_names_keep_their_start(s: Seq<char>)
    requires
        s.len() > 120,
        forall|i: int| 0 <= i < s.len() ==> is_name_char(#[trigger] s[i]),
        s[0] != '.',
        s[119] != '.',
    ensures
        sanitized(s) == s.take(120),
{
    let keep = |c: char| is_name_char(c);
    assert forall|i: int| 0 <= i < s.len() implies keep(#[trigger] s[i]) && s[i] != '/' by {
        assert(is_name_char(s[i]));
    }
    no_slash(s);
    assert(s.skip(0) =~= s);
    kept_all(s, keep);
    assert(s.take(120)[0] == s[0]);
    assert(s.take(120).last() == s[119]);
}

} // verus!
