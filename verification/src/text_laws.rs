//! What holds of the operations on text and on paths.

use vstd::prelude::*;

use crate::laws::{
    lemma_decimal, lemma_spaces_go, lemma_trim_end_keeps, lemma_trim_start_joined,
    lemma_trim_start_keeps, lemma_trimmed_end_prefix,
};
use crate::paths::{dotted, joined, last_name, rooted, same_path, segments};
use crate::text::{
    decimal, digits_value, first_at, is_space, lemma_until, lemma_until_bounds, pieces, rest_after,
    stands_at, text_lines, trimmed, trimmed_end, trimmed_start, u32_value, until,
};
use crate::unicode::ascii_lowered;

verus! {

/// White space are these characters and no others.
pub proof fn law_white_space(c: char)
    ensures
        is_space(c) <==> (c == '\t' || c == '\n' || c == '\u{b}' || c == '\u{c}' || c == '\r' || c
            == ' ' || c == '\u{85}' || c == '\u{a0}' || c == '\u{1680}' || c == '\u{2000}' || c
            == '\u{2001}' || c == '\u{2002}' || c == '\u{2003}' || c == '\u{2004}' || c
            == '\u{2005}' || c == '\u{2006}' || c == '\u{2007}' || c == '\u{2008}' || c
            == '\u{2009}' || c == '\u{200a}' || c == '\u{2028}' || c == '\u{2029}' || c
            == '\u{202f}' || c == '\u{205f}' || c == '\u{3000}'),
{
}

/// Whether a text holds nothing but white space.
pub open spec fn blank(s: Seq<char>) -> bool {
    forall|i: int| 0 <= i < s.len() ==> is_space(#[trigger] s[i])
}

/// Whether a text neither begins nor ends with white space.
pub open spec fn bare(s: Seq<char>) -> bool {
    s.len() > 0 ==> !is_space(s[0]) && !is_space(s.last())
}

/// The white space at the end of a text goes, and nothing else.
pub proof fn law_trim_end(core: Seq<char>, trail: Seq<char>)
    requires
        core.len() > 0 ==> !is_space(core.last()),
        blank(trail),
    ensures
        trimmed_end(core + trail) == core,
    decreases trail.len(),
{
    let s = core + trail;
    if trail.len() == 0 {
        assert(s =~= core);
        lemma_trim_end_keeps(core);
    } else {
        assert(s.drop_last() =~= core + trail.drop_last());
        assert(s.last() == trail.last());
        assert forall|i: int| 0 <= i < trail.drop_last().len() implies is_space(
            #[trigger] trail.drop_last()[i],
        ) by {
            assert(trail.drop_last()[i] == trail[i]);
        }
        law_trim_end(core, trail.drop_last());
    }
}

/// The white space around a text goes, and nothing else.
pub proof fn law_trim(lead: Seq<char>, core: Seq<char>, trail: Seq<char>)
    requires
        blank(lead),
        blank(trail),
        bare(core),
    ensures
        trimmed(lead + core + trail) == core,
        trimmed_start(lead + core) == core,
{
    lemma_spaces_go(lead);
    assert(lead + core + trail =~= lead + (core + trail));
    lemma_trim_start_joined(lead, core + trail);
    lemma_trim_start_joined(lead, core);
    lemma_trim_start_keeps(core);
    if core.len() == 0 {
        assert(core + trail =~= trail);
        lemma_spaces_go(trail);
        assert(trimmed_start(trail) =~= core);
        lemma_trim_end_keeps(core);
    } else {
        lemma_trim_start_keeps(core + trail);
        law_trim_end(core, trail);
    }
}

/// What is left of a text without the white space at its end is its beginning,
/// and white space is all that follows it.
pub proof fn law_trim_end_loses_space_only(s: Seq<char>)
    ensures
        trimmed_end(s).len() <= s.len(),
        s == trimmed_end(s) + s.skip(trimmed_end(s).len() as int),
        blank(s.skip(trimmed_end(s).len() as int)),
        trimmed_end(s).len() > 0 ==> !is_space(trimmed_end(s).last()),
    decreases s.len(),
{
    lemma_trimmed_end_prefix(s, 0);
    let n = trimmed_end(s).len() as int;
    assert(s =~= s.take(n) + s.skip(n));
    if s.len() > 0 && is_space(s.last()) {
        law_trim_end_loses_space_only(s.drop_last());
        assert forall|i: int| 0 <= i < s.skip(n).len() implies is_space(
            #[trigger] s.skip(n)[i],
        ) by {
            if i + n < s.len() - 1 {
                assert(s.drop_last().skip(n)[i] == s.skip(n)[i]);
            }
        }
    }
}

/// What is left of a text without the white space around it stands in it between
/// white space.
pub proof fn law_trim_loses_space_only(s: Seq<char>)
    ensures
        bare(trimmed(s)),
        exists|lead: Seq<char>, trail: Seq<char>|
            blank(lead) && blank(trail) && s == #[trigger] (lead + trimmed(s) + trail),
    decreases s.len(),
{
    if s.len() > 0 && is_space(s[0]) {
        let rest = s.skip(1);
        law_trim_loses_space_only(rest);
        let (lead, trail) = choose|lead: Seq<char>, trail: Seq<char>|
            blank(lead) && blank(trail) && rest == #[trigger] (lead + trimmed(rest) + trail);
        let more = seq![s[0]] + lead;
        assert(s =~= seq![s[0]] + rest);
        assert(s =~= more + trimmed(s) + trail);
        assert(blank(more));
    } else {
        law_trim_end_loses_space_only(s);
        let t = trimmed(s);
        let trail = s.skip(t.len() as int);
        let none = Seq::<char>::empty();
        assert(s =~= none + t + trail);
        assert(blank(none));
        if t.len() > 0 {
            assert(t[0] == s[0]);
        }
    }
}

/// A text without a separator is one piece.
pub proof fn law_one_piece<T>(s: Seq<T>, sep: T)
    requires
        !s.contains(sep),
    ensures
        pieces(s, sep) == seq![s],
{
    lemma_until(s, sep, s.len() as int);
}

/// A separator ends one piece and begins another.
pub proof fn law_pieces_join<T>(a: Seq<T>, b: Seq<T>, sep: T)
    ensures
        pieces(a.push(sep) + b, sep) == pieces(a, sep) + pieces(b, sep),
    decreases a.len(),
{
    let s = a.push(sep) + b;
    let k = until(a, sep);
    lemma_until_bounds(a, sep);
    assert forall|j: int| 0 <= j < k implies s[j] != sep by {
        assert(s[j] == a[j]);
    }
    assert(s[k] == sep);
    lemma_until(s, sep, k);
    assert(s.take(k) =~= a.take(k));
    if k == a.len() {
        assert(a.take(k) =~= a);
        assert(s.skip(k + 1) =~= b);
        assert(pieces(a, sep) =~= seq![a]);
    } else {
        let rest = a.skip(k + 1);
        assert(s.skip(k + 1) =~= rest.push(sep) + b);
        law_pieces_join(rest, b, sep);
        assert(seq![a.take(k)] + (pieces(rest, sep) + pieces(b, sep)) =~= pieces(a, sep) + pieces(
            b,
            sep,
        ));
    }
}

/// Texts with a separator between each two.
pub open spec fn with_between<T>(list: Seq<Seq<T>>, sep: T) -> Seq<T>
    decreases list.len(),
{
    if list.len() == 0 {
        Seq::empty()
    } else if list.len() == 1 {
        list[0]
    } else {
        with_between(list.drop_last(), sep).push(sep) + list.last()
    }
}

/// Splitting a text gives back what was put together with separators.
pub proof fn law_split_undoes_join<T>(list: Seq<Seq<T>>, sep: T)
    requires
        list.len() > 0,
        forall|i: int| 0 <= i < list.len() ==> !(#[trigger] list[i]).contains(sep),
    ensures
        pieces(with_between(list, sep), sep) == list,
    decreases list.len(),
{
    law_one_piece(list.last(), sep);
    if list.len() == 1 {
        assert(list =~= seq![list[0]]);
    } else {
        let front = list.drop_last();
        assert forall|i: int| 0 <= i < front.len() implies !(#[trigger] front[i]).contains(sep) by {
            assert(front[i] == list[i]);
        }
        law_split_undoes_join(front, sep);
        law_pieces_join(with_between(front, sep), list.last(), sep);
        assert(list =~= front + seq![list.last()]);
    }
}

/// A text without a line feed is one line, unless it is empty.
pub proof fn law_one_line(line: Seq<char>)
    requires
        !line.contains('\n'),
    ensures
        text_lines(line) == (if line.len() == 0 {
            Seq::empty()
        } else {
            seq![line]
        }),
{
    lemma_until(line, '\n', line.len() as int);
}

/// A line ends at its line feed, or at the carriage return before it. What comes
/// after it is lines again.
pub proof fn law_first_line(line: Seq<char>, rest: Seq<char>)
    requires
        !line.contains('\n'),
    ensures
        text_lines(line + seq!['\r', '\n'] + rest) == seq![line] + text_lines(rest),
        !(line.len() > 0 && line.last() == '\r') ==> text_lines(line + seq!['\n'] + rest)
            == seq![line] + text_lines(rest),
{
    let a = line + seq!['\n'] + rest;
    let b = line + seq!['\r', '\n'] + rest;
    let n = line.len() as int;
    assert forall|j: int| 0 <= j < n implies a[j] != '\n' && b[j] != '\n' by {
        assert(line.contains(line[j]));
        assert(a[j] == line[j] && b[j] == line[j]);
    }
    assert(a[n] == '\n');
    assert(b[n] == '\r' && b[n + 1] == '\n');
    lemma_until(a, '\n', n);
    lemma_until(b, '\n', n + 1);
    assert(a.take(n) =~= line);
    assert(a.skip(n + 1) =~= rest);
    assert(b.take(n + 1) =~= line.push('\r'));
    assert(b.take(n + 1).drop_last() =~= line);
    assert(b.skip(n + 2) =~= rest);
}

/// The lines of two texts, of which the first ends with a line feed, are those of
/// the one and then those of the other.
pub proof fn law_lines_join(a: Seq<char>, b: Seq<char>)
    requires
        a.len() > 0 ==> a.last() == '\n',
    ensures
        text_lines(a + b) == text_lines(a) + text_lines(b),
    decreases a.len(),
{
    if a.len() == 0 {
        assert(a + b =~= b);
        assert(text_lines(a) + text_lines(b) =~= text_lines(b));
    } else {
        let s = a + b;
        let k = until(a, '\n');
        lemma_until_bounds(a, '\n');
        assert(k < a.len()) by {
            if k == a.len() {
                assert(a[a.len() - 1] != '\n');
            }
        }
        assert forall|j: int| 0 <= j < k implies s[j] != '\n' by {
            assert(s[j] == a[j]);
        }
        lemma_until(s, '\n', k);
        assert(s.take(k) =~= a.take(k));
        let rest = a.skip(k + 1);
        assert(s.skip(k + 1) =~= rest + b);
        if rest.len() > 0 {
            assert(rest.last() == a.last());
        }
        law_lines_join(rest, b);
        let head = seq![crate::text::without_cr(a.take(k))];
        assert(head + (text_lines(rest) + text_lines(b)) =~= (head + text_lines(rest))
            + text_lines(b));
    }
}

proof fn lemma_first_at(s: Seq<char>, part: Seq<char>, i: int)
    requires
        0 <= i,
    ensures
        match first_at(s, part, i) {
            Some(k) => i <= k && stands_at(s, part, k) && forall|j: int|
                i <= j < k ==> !(#[trigger] stands_at(s, part, j)),
            None => forall|j: int| i <= j ==> !(#[trigger] stands_at(s, part, j)),
        },
    decreases s.len() + 1 - i,
{
    if i <= s.len() && !stands_at(s, part, i) {
        lemma_first_at(s, part, i + 1);
    }
}

proof fn lemma_stands(h: Seq<char>, part: Seq<char>, u: Seq<char>)
    ensures
        stands_at(h + part + u, part, h.len() as int),
        (h + part + u).skip((h.len() + part.len()) as int) == u,
{
    let s = h + part + u;
    let n = h.len() as int;
    assert(s.subrange(n, n + part.len()) =~= part);
    assert(s.skip(n + part.len()) =~= u);
}

/// Whether `s` is `head`, then `part`, then `rest`.
pub open spec fn splits(s: Seq<char>, head: Seq<char>, part: Seq<char>, rest: Seq<char>) -> bool {
    s == head + part + rest
}

/// Whether `head` is the shortest text after which `part` stands in `s`.
pub open spec fn is_first(s: Seq<char>, head: Seq<char>, part: Seq<char>) -> bool {
    forall|h: Seq<char>, u: Seq<char>| #[trigger] splits(s, h, part, u) ==> head.len() <= h.len()
}

/// What follows a word in a text is what follows it where it stands first; there
/// is nothing of the kind where it does not occur.
pub proof fn law_rest_after(s: Seq<char>, part: Seq<char>)
    ensures
        rest_after(s, part) matches Some(rest) ==> exists|head: Seq<char>|
            is_first(s, head, part) && #[trigger] splits(s, head, part, rest),
        rest_after(s, part) is None ==> forall|h: Seq<char>, u: Seq<char>|
            !(#[trigger] splits(s, h, part, u)),
{
    lemma_first_at(s, part, 0);
    match first_at(s, part, 0) {
        Some(k) => {
            let head = s.take(k);
            let rest = s.skip(k + part.len());
            assert(s.subrange(k, k + part.len()) == part);
            assert(s =~= head + part + rest);
            assert forall|h: Seq<char>, u: Seq<char>| #[trigger]
                splits(s, h, part, u) implies head.len() <= h.len() by {
                lemma_stands(h, part, u);
                assert(stands_at(s, part, h.len() as int));
            }
            assert(is_first(s, head, part));
            assert(splits(s, head, part, rest));
            assert(rest_after(s, part)->Some_0 =~= rest);
            assert(splits(s, head, part, rest_after(s, part)->Some_0));
        },
        None => {
            assert forall|h: Seq<char>, u: Seq<char>| !(#[trigger] splits(s, h, part, u)) by {
                lemma_stands(h, part, u);
                if splits(s, h, part, u) {
                    assert(stands_at(s, part, h.len() as int));
                }
            }
            assert(rest_after(s, part) is None);
        },
    }
}

/// A number is written with the digits of its tens before the digit of its ones.
pub proof fn law_decimal(n: nat, d: nat)
    requires
        d < 10,
    ensures
        decimal(d) == seq!["0123456789"@[d as int]],
        n > 0 ==> decimal(10 * n + d) == decimal(n).push("0123456789"@[d as int]),
{
    reveal_strlit("0123456789");
    assert((10 * n + d) / 10 == n);
    assert((10 * n + d) % 10 == d);
}

/// A number is read as it is written; a plus sign and zeros before it make no
/// difference. What is too large, empty or not made of digits is no number.
pub proof fn law_numbers_are_read(s: Seq<char>, n: nat)
    ensures
        u32_value(decimal(n)) == (if n <= u32::MAX {
            Some(n as u32)
        } else {
            None
        }),
        s.len() > 0 && s[0] != '+' ==> u32_value(seq!['+'] + s) == u32_value(s),
        s.len() > 0 && s[0] != '+' ==> u32_value(seq!['0'] + s) == u32_value(s),
        s.len() == 0 || s == seq!['+'] ==> u32_value(s) is None,
        (exists|i: int|
            0 < i < s.len() && !("0123456789"@.contains(#[trigger] s[i]))) ==> u32_value(s) is None,
        s.len() > 0 && s[0] != '+' && !("0123456789"@.contains(s[0])) ==> u32_value(s) is None,
{
    reveal_strlit("0123456789");
    let digits = "0123456789"@;
    lemma_decimal(n);
    assert((seq!['+'] + s).skip(1) =~= s);
    let z = seq!['0'] + s;
    lemma_leading_zero(s);
    if s.len() > 0 && s[0] != '+' {
        if crate::text::all_digits(s) {
            assert(crate::text::all_digits(z));
        } else {
            let i = choose|i: int| 0 <= i < s.len() && !('0' <= #[trigger] s[i] <= '9');
            assert(z[i + 1] == s[i]);
        }
    }
    if exists|i: int| 0 < i < s.len() && !(digits.contains(#[trigger] s[i])) {
        let i = choose|i: int| 0 < i < s.len() && !(digits.contains(#[trigger] s[i]));
        lemma_digit(s[i]);
        assert(s.skip(1)[i - 1] == s[i]);
    }
    if s.len() > 0 {
        lemma_digit(s[0]);
    }
}

proof fn lemma_digit(c: char)
    ensures
        "0123456789"@.contains(c) <==> '0' <= c <= '9',
{
    reveal_strlit("0123456789");
    let digits = "0123456789"@;
    if '0' <= c <= '9' {
        assert(digits[c as int - 48] == c);
    }
}

proof fn lemma_leading_zero(s: Seq<char>)
    ensures
        digits_value(seq!['0'] + s) == digits_value(s),
    decreases s.len(),
{
    let z = seq!['0'] + s;
    if s.len() == 0 {
        assert(z.drop_last() =~= Seq::<char>::empty());
        assert(digits_value(z.drop_last()) == 0);
    } else {
        assert(z.drop_last() =~= seq!['0'] + s.drop_last());
        lemma_leading_zero(s.drop_last());
    }
}

/// The path of a name in a directory: the directory, one slash between them, and
/// the name; a name that starts at the root stands for itself.
pub proof fn law_joined(dir: Seq<u8>, name: Seq<u8>)
    ensures
        name.len() > 0 && name[0] == 0x2f ==> joined(dir, name) == name,
        !(name.len() > 0 && name[0] == 0x2f) ==> {
            &&& dir.len() == 0 ==> joined(dir, name) == name
            &&& dir.len() > 0 && dir.last() != 0x2f ==> joined(dir, name) == dir + seq![0x2fu8]
                + name
            &&& joined(dir.push(0x2f), name) == dir.push(0x2f) + name
        },
{
    if dir.len() == 0 {
        assert(dir + name =~= name);
    }
    assert(dir.push(0x2f) + name =~= dir + seq![0x2fu8] + name);
}

/// The components of a path are those before a slash and those after it.
pub proof fn law_components_join(a: Seq<u8>, b: Seq<u8>)
    ensures
        segments(a + seq![0x2fu8] + b) == segments(a) + segments(b),
{
    let keep = |piece: Seq<u8>| crate::paths::is_segment(piece);
    assert(a + seq![0x2fu8] + b =~= a.push(0x2f) + b);
    law_pieces_join(a, b, 0x2fu8);
    Seq::filter_distributes_over_add(pieces(a, 0x2fu8), pieces(b, 0x2fu8), keep);
}

/// A path without a slash is one component, unless it is empty or a dot.
pub proof fn law_one_component(a: Seq<u8>)
    requires
        !a.contains(0x2f),
    ensures
        segments(a) == (if a.len() == 0 || a == seq![0x2eu8] {
            Seq::empty()
        } else {
            seq![a]
        }),
{
    law_one_piece(a, 0x2fu8);
    reveal(Seq::filter);
    let keep = |piece: Seq<u8>| crate::paths::is_segment(piece);
    let all = seq![a];
    assert(all.drop_last() =~= Seq::<Seq<u8>>::empty());
    assert(all.drop_last().filter(keep) =~= Seq::<Seq<u8>>::empty());
    assert(Seq::<Seq<u8>>::empty().push(a) =~= all);
}

/// The last component of a path is the name that was put at its end.
pub proof fn law_last_name(dir: Seq<u8>, name: Seq<u8>)
    requires
        name.len() > 0,
        !name.contains(0x2f),
        name != seq![0x2eu8],
    ensures
        last_name(joined(dir, name)) == (if name == seq![0x2eu8, 0x2eu8] {
            Seq::empty()
        } else {
            name
        }),
        last_name(joined(dir, name).push(0x2f)) == last_name(joined(dir, name)),
{
    law_one_component(name);
    assert(name.contains(name[0]));
    let j = joined(dir, name);
    if dir.len() == 0 {
        assert(j =~= name);
    } else if dir.last() == 0x2f {
        let front = dir.drop_last();
        assert(j =~= front + seq![0x2fu8] + name);
        law_components_join(front, name);
    } else {
        assert(j =~= dir + seq![0x2fu8] + name);
        law_components_join(dir, name);
    }
    let none = Seq::<u8>::empty();
    assert(j.push(0x2f) =~= j + seq![0x2fu8] + none);
    law_components_join(j, none);
    law_one_component(none);
    assert(segments(j) + segments(none) =~= segments(j));
    assert(segments(j).last() == name);
}

/// The name of a path is its last component, unless that leads up.
pub proof fn law_last_component(path: Seq<u8>)
    ensures
        segments(path).len() == 0 ==> last_name(path).len() == 0,
        segments(path).len() > 0 && segments(path).last() != seq![0x2eu8, 0x2eu8] ==> last_name(
            path,
        ) == segments(path).last(),
        segments(path).len() > 0 && segments(path).last() == seq![0x2eu8, 0x2eu8] ==> last_name(
            path,
        ).len() == 0,
{
}

/// A path that is not from the root and begins with a dot of its own is another one
/// than without that dot; apart from that, its components make it what it is.
pub proof fn law_relative_paths(a: Seq<u8>, b: Seq<u8>)
    requires
        !(a.len() > 0 && a[0] == 0x2f),
        !(b.len() > 0 && b[0] == 0x2f),
    ensures
        dotted(a) <==> a == seq![0x2eu8] || seq![0x2eu8, 0x2fu8].is_prefix_of(a),
        same_path(a, b) <==> dotted(a) == dotted(b) && segments(a) == segments(b),
{
    let k = until(a, 0x2fu8);
    lemma_until_bounds(a, 0x2fu8);
    let first = pieces(a, 0x2fu8)[0];
    assert(first =~= a.take(k));
    let head = seq![0x2eu8, 0x2fu8];
    if first == seq![0x2eu8] {
        assert(k == 1);
        assert(a[0] == first[0]);
        if a.len() > 1 {
            assert(head =~= a.subrange(0, 2));
        } else {
            assert(a =~= seq![0x2eu8]);
        }
    }
    if head.is_prefix_of(a) {
        assert(a[0] == a.subrange(0, 2)[0]);
        assert(a[1] == a.subrange(0, 2)[1]);
        lemma_until(a, 0x2fu8, 1);
        assert(first =~= seq![0x2eu8]);
    } else if a == seq![0x2eu8] {
        lemma_until(a, 0x2fu8, 1);
    }
}

/// Two spellings of a path are the same path: more slashes, a slash at the end and
/// a dot between slashes make no difference. Paths with other components are not
/// the same, nor are one from the root and one that is not.
pub proof fn law_same_path(a: Seq<u8>, b: Seq<u8>)
    requires
        a.len() > 0,
    ensures
        same_path(a, a),
        same_path(a + seq![0x2fu8] + b, a + seq![0x2fu8, 0x2fu8] + b),
        same_path(a + seq![0x2fu8] + b, a + seq![0x2fu8, 0x2eu8, 0x2fu8] + b),
        same_path(a, a.push(0x2f)),
        segments(a) != segments(b) ==> !same_path(a, b),
        (a[0] == 0x2f) != (b.len() > 0 && b[0] == 0x2f) ==> !same_path(a, b),
        a[0] == 0x2f && b.len() > 0 && b[0] == 0x2f && segments(a) == segments(b) ==> same_path(
            a,
            b,
        ),
{
    let none = Seq::<u8>::empty();
    let dot = seq![0x2eu8];
    let x = a + seq![0x2fu8] + b;
    let y = a + seq![0x2fu8, 0x2fu8] + b;
    let z = a + seq![0x2fu8, 0x2eu8, 0x2fu8] + b;
    law_one_component(none);
    law_one_component(dot);
    law_components_join(a, b);
    assert(y =~= (a + seq![0x2fu8] + none) + seq![0x2fu8] + b);
    law_components_join(a + seq![0x2fu8] + none, b);
    law_components_join(a, none);
    assert(z =~= (a + seq![0x2fu8] + dot) + seq![0x2fu8] + b);
    law_components_join(a + seq![0x2fu8] + dot, b);
    law_components_join(a, dot);
    assert(segments(a) + segments(none) =~= segments(a));
    assert(segments(a) + segments(dot) =~= segments(a));
    assert(a.push(0x2f) =~= a + seq![0x2fu8] + none);
    assert(x[0] == a[0] && y[0] == a[0] && z[0] == a[0]);
    lemma_first_piece(a, b);
    lemma_first_piece(a, seq![0x2fu8] + b);
    lemma_first_piece(a, seq![0x2eu8, 0x2fu8] + b);
    lemma_first_piece(a, none);
    assert(y =~= a + seq![0x2fu8] + (seq![0x2fu8] + b));
    assert(z =~= a + seq![0x2fu8] + (seq![0x2eu8, 0x2fu8] + b));
}

proof fn lemma_first_piece(a: Seq<u8>, b: Seq<u8>)
    requires
        a.len() > 0,
    ensures
        dotted(a + seq![0x2fu8] + b) == dotted(a),
        rooted(a + seq![0x2fu8] + b) == rooted(a),
{
    assert(a + seq![0x2fu8] + b =~= a.push(0x2f) + b);
    law_pieces_join(a, b, 0x2fu8);
    lemma_until_bounds(a, 0x2fu8);
    assert(pieces(a, 0x2fu8).len() > 0);
    assert((pieces(a, 0x2fu8) + pieces(b, 0x2fu8))[0] == pieces(a, 0x2fu8)[0]);
    assert((a + seq![0x2fu8] + b)[0] == a[0]);
}

/// In ASCII, each capital letter becomes the small letter of the same place in the
/// alphabet, and any other character stays.
pub proof fn law_small_letters(s: Seq<char>, i: int)
    requires
        0 <= i < s.len(),
    ensures
        ascii_lowered(s).len() == s.len(),
        forall|k: int|
            0 <= k < 26 && s[i] == #[trigger] "ABCDEFGHIJKLMNOPQRSTUVWXYZ"@[k] ==> ascii_lowered(
                s,
            )[i] == "abcdefghijklmnopqrstuvwxyz"@[k],
        !("ABCDEFGHIJKLMNOPQRSTUVWXYZ"@.contains(s[i])) ==> ascii_lowered(s)[i] == s[i],
{
    reveal_strlit("ABCDEFGHIJKLMNOPQRSTUVWXYZ");
    reveal_strlit("abcdefghijklmnopqrstuvwxyz");
    let upper = "ABCDEFGHIJKLMNOPQRSTUVWXYZ"@;
    let c = s[i];
    if 'A' <= c <= 'Z' {
        assert(upper[c as int - 65] == c);
    }
}

} // verus!
