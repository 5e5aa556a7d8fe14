//! Plain text operations on sequences of characters.
//!
//! Each operation has a specification on `Seq<char>` and an executable
//! function on `&str` that is proved to compute it.

use vstd::prelude::*;
use vstd::slice::slice_subrange;
use vstd::string::*;

verus! {

/// The contents of a list of strings.
pub open spec fn texts(list: Seq<String>) -> Seq<Seq<char>> {
    list.map_values(|s: String| s@)
}

/// `String::push` appends one character to the end of the string.
pub assume_specification[ String::push ](s: &mut String, c: char)
    ensures
        final(s)@ == old(s)@.push(c),
;

/// The characters of `s`.
pub fn chars_of(s: &str) -> (r: Vec<char>)
    ensures
        r@ == s@,
{
    let mut r: Vec<char> = Vec::new();
    for c in it: s.chars()
        invariant
            r@ == it.seq().take(it.index()),
            it.seq() == s@,
    {
        r.push(c);
    }
    r
}

/// The string made of the characters of `v`.
pub fn string_of(v: &[char]) -> (r: String)
    ensures
        r@ == v@,
{
    let mut r: String = String::new();
    let mut i: usize = 0;
    while i < v.len()
        invariant
            i <= v@.len(),
            r@ == v@.take(i as int),
        decreases v@.len() - i,
    {
        r.push(v[i]);
        i = i + 1;
    }
    r
}

/// Whether the two strings hold the same characters.
pub fn same(a: &str, b: &str) -> (r: bool)
    ensures
        r == (a@ == b@),
{
    let x: Vec<char> = chars_of(a);
    let y: Vec<char> = chars_of(b);
    if x.len() != y.len() {
        return false;
    }
    let mut i: usize = 0;
    while i < x.len()
        invariant
            i <= x@.len(),
            x@.len() == y@.len(),
            forall|j: int| 0 <= j < i ==> x@[j] == y@[j],
            x@ == a@,
            y@ == b@,
        decreases x@.len() - i,
    {
        if x[i] != y[i] {
            return false;
        }
        i = i + 1;
    }
    assert(x@ =~= y@);
    true
}

/// The first text followed by the second.
pub fn join2(a: &str, b: &str) -> (r: String)
    ensures
        r@ == a@ + b@,
{
    let mut r: String = a.to_owned();
    r.append(b);
    r
}

/// Three texts, one after the other.
pub fn join3(a: &str, b: &str, c: &str) -> (r: String)
    ensures
        r@ == a@ + b@ + c@,
{
    let mut r: String = join2(a, b);
    r.append(c);
    r
}

/// Four texts, one after the other.
pub fn join4(a: &str, b: &str, c: &str, d: &str) -> (r: String)
    ensures
        r@ == a@ + b@ + c@ + d@,
{
    let mut r: String = join3(a, b, c);
    r.append(d);
    r
}

/// A list of one text.
pub fn list1(a: &str) -> (r: Vec<String>)
    ensures
        texts(r@) == seq![a@],
{
    let mut r: Vec<String> = Vec::new();
    r.push(a.to_owned());
    assert(texts(r@) =~= seq![a@]);
    r
}

/// A list of two texts.
pub fn list2(a: &str, b: &str) -> (r: Vec<String>)
    ensures
        texts(r@) == seq![a@, b@],
{
    let mut r: Vec<String> = list1(a);
    let ghost before = texts(r@);
    r.push(b.to_owned());
    assert(texts(r@) =~= before.push(b@));
    r
}

/// A list of three texts.
pub fn list3(a: &str, b: &str, c: &str) -> (r: Vec<String>)
    ensures
        texts(r@) == seq![a@, b@, c@],
{
    let mut r: Vec<String> = list2(a, b);
    let ghost before = texts(r@);
    r.push(c.to_owned());
    assert(texts(r@) =~= before.push(c@));
    r
}

/// A character with the Unicode property `White_Space`.
pub open spec fn is_space(c: char) -> bool {
    let u = c as u32;
    ||| 0x09 <= u <= 0x0d
    ||| u == 0x20
    ||| u == 0x85
    ||| u == 0xa0
    ||| u == 0x1680
    ||| 0x2000 <= u <= 0x200a
    ||| u == 0x2028
    ||| u == 0x2029
    ||| u == 0x202f
    ||| u == 0x205f
    ||| u == 0x3000
}

fn space(c: char) -> (r: bool)
    ensures
        r == is_space(c),
{
    let u: u32 = c as u32;
    (0x09 <= u && u <= 0x0d) || u == 0x20 || u == 0x85 || u == 0xa0 || u == 0x1680 || (0x2000 <= u
        && u <= 0x200a) || u == 0x2028 || u == 0x2029 || u == 0x202f || u == 0x205f || u == 0x3000
}

/// `s` without its leading white space.
pub open spec fn trimmed_start(s: Seq<char>) -> Seq<char>
    decreases s.len(),
{
    if s.len() > 0 && is_space(s[0]) {
        trimmed_start(s.skip(1))
    } else {
        s
    }
}

/// `s` without its trailing white space.
pub open spec fn trimmed_end(s: Seq<char>) -> Seq<char>
    decreases s.len(),
{
    if s.len() > 0 && is_space(s.last()) {
        trimmed_end(s.drop_last())
    } else {
        s
    }
}

/// `s` without its leading and trailing white space.
pub open spec fn trimmed(s: Seq<char>) -> Seq<char> {
    trimmed_end(trimmed_start(s))
}

fn start_slice(v: &[char]) -> (r: &[char])
    ensures
        r@ == trimmed_start(v@),
{
    let mut i: usize = 0;
    assert(v@.skip(0) =~= v@);
    while i < v.len() && space(v[i])
        invariant
            i <= v@.len(),
            trimmed_start(v@.skip(i as int)) == trimmed_start(v@),
        decreases v@.len() - i,
    {
        assert(v@.skip(i as int).skip(1) =~= v@.skip(i + 1));
        i = i + 1;
    }
    assert(v@.skip(i as int) =~= v@.subrange(i as int, v@.len() as int));
    slice_subrange(v, i, v.len())
}

fn end_slice(v: &[char]) -> (r: &[char])
    ensures
        r@ == trimmed_end(v@),
{
    let mut i: usize = v.len();
    assert(v@.take(i as int) =~= v@);
    while i > 0 && space(v[i - 1])
        invariant
            i <= v@.len(),
            trimmed_end(v@.take(i as int)) == trimmed_end(v@),
        decreases i,
    {
        assert(v@.take(i as int).drop_last() =~= v@.take(i - 1));
        i = i - 1;
    }
    assert(v@.take(i as int) =~= v@.subrange(0, i as int));
    slice_subrange(v, 0, i)
}

/// `s` without its leading and trailing white space.
pub fn trim(s: &str) -> (r: String)
    ensures
        r@ == trimmed(s@),
{
    let v: Vec<char> = chars_of(s);
    string_of(end_slice(start_slice(v.as_slice())))
}

/// `s` without its trailing white space.
pub fn trim_end(s: &str) -> (r: String)
    ensures
        r@ == trimmed_end(s@),
{
    let v: Vec<char> = chars_of(s);
    string_of(end_slice(v.as_slice()))
}

/// How many items of `s` stand before the first `sep`; all of them if there is none.
pub open spec fn until<T>(s: Seq<T>, sep: T) -> int
    decreases s.len(),
{
    if s.len() == 0 || s[0] == sep {
        0
    } else {
        1 + until(s.skip(1), sep)
    }
}

/// `until` is the one position that holds `sep`, or the end, with no `sep` before it.
pub proof fn lemma_until<T>(s: Seq<T>, sep: T, k: int)
    requires
        0 <= k <= s.len(),
        k < s.len() ==> s[k] == sep,
        forall|j: int| 0 <= j < k ==> s[j] != sep,
    ensures
        until(s, sep) == k,
    decreases s.len(),
{
    if s.len() > 0 && s[0] != sep {
        assert forall|j: int| 0 <= j < k - 1 implies s.skip(1)[j] != sep by {
            assert(s.skip(1)[j] == s[j + 1]);
        }
        lemma_until(s.skip(1), sep, k - 1);
    }
}

/// No `sep` stands before `until`, and one stands there unless it is the end.
pub proof fn lemma_until_bounds<T>(s: Seq<T>, sep: T)
    ensures
        0 <= until(s, sep) <= s.len(),
        until(s, sep) < s.len() ==> s[until(s, sep)] == sep,
        forall|j: int| 0 <= j < until(s, sep) ==> s[j] != sep,
    decreases s.len(),
{
    if s.len() > 0 && s[0] != sep {
        lemma_until_bounds(s.skip(1), sep);
        assert forall|j: int| 0 <= j < until(s, sep) implies s[j] != sep by {
            if j > 0 {
                assert(s.skip(1)[j - 1] == s[j]);
            }
        }
    }
}

/// The pieces of `s` between the separators.
pub open spec fn pieces<T>(s: Seq<T>, sep: T) -> Seq<Seq<T>>
    decreases s.len(),
{
    proof {
        lemma_until_bounds(s, sep);
    }
    let k = until(s, sep);
    if k == s.len() {
        seq![s]
    } else {
        seq![s.take(k)] + pieces(s.skip(k + 1), sep)
    }
}

/// The lines of `s`: a line ends with `\n` or `\r\n`, and the last one may go without.
pub open spec fn text_lines(s: Seq<char>) -> Seq<Seq<char>>
    decreases s.len(),
{
    proof {
        lemma_until_bounds(s, '\n');
    }
    let k = until(s, '\n');
    if s.len() == 0 {
        Seq::empty()
    } else if k == s.len() {
        seq![s]
    } else {
        seq![without_cr(s.take(k))] + text_lines(s.skip(k + 1))
    }
}

/// `s` without one trailing `\r`.
pub open spec fn without_cr(s: Seq<char>) -> Seq<char> {
    if s.len() > 0 && s.last() == '\r' {
        s.drop_last()
    } else {
        s
    }
}


fn cr_slice(v: &[char]) -> (r: &[char])
    ensures
        r@ == without_cr(v@),
{
    if v.len() > 0 && v[v.len() - 1] == '\r' {
        assert(v@.drop_last() =~= v@.subrange(0, v@.len() - 1));
        slice_subrange(v, 0, v.len() - 1)
    } else {
        v
    }
}

/// The pieces of `s` between the separators.
pub fn split(s: &str, sep: char) -> (r: Vec<String>)
    ensures
        texts(r@) == pieces(s@, sep),
{
    let v: Vec<char> = chars_of(s);
    let mut r: Vec<String> = Vec::new();
    let mut start: usize = 0;
    let mut i: usize = 0;
    assert(v@.skip(0) =~= v@);
    assert(texts(r@) + pieces(v@, sep) =~= pieces(v@, sep));
    while i < v.len()
        invariant
            start <= i <= v@.len(),
            forall|j: int| start <= j < i ==> v@[j] != sep,
            texts(r@) + pieces(v@.skip(start as int), sep) == pieces(v@, sep),
        decreases v@.len() - i,
    {
        if v[i] == sep {
            let ghost rest = v@.skip(start as int);
            let ghost before = texts(r@);
            proof {
                lemma_until(rest, sep, i - start);
                assert(rest.take(i - start) =~= v@.subrange(start as int, i as int));
                assert(rest.skip(i - start + 1) =~= v@.skip(i + 1));
            }
            r.push(string_of(slice_subrange(v.as_slice(), start, i)));
            start = i + 1;
            assert(texts(r@) + pieces(v@.skip(start as int), sep) =~= before + pieces(rest, sep));
        }
        i = i + 1;
    }
    let ghost rest = v@.skip(start as int);
    let ghost before = texts(r@);
    proof {
        lemma_until(rest, sep, rest.len() as int);
        assert(rest =~= v@.subrange(start as int, v@.len() as int));
    }
    r.push(string_of(slice_subrange(v.as_slice(), start, v.len())));
    assert(texts(r@) =~= before + pieces(rest, sep));
    r
}

/// The lines of `s`: a line ends with `\n` or `\r\n`, and the last one may go without.
pub fn lines(s: &str) -> (r: Vec<String>)
    ensures
        texts(r@) == text_lines(s@),
{
    let v: Vec<char> = chars_of(s);
    let mut r: Vec<String> = Vec::new();
    let mut start: usize = 0;
    let mut i: usize = 0;
    assert(v@.skip(0) =~= v@);
    assert(texts(r@) + text_lines(v@) =~= text_lines(v@));
    while i < v.len()
        invariant
            start <= i <= v@.len(),
            forall|j: int| start <= j < i ==> v@[j] != '\n',
            texts(r@) + text_lines(v@.skip(start as int)) == text_lines(v@),
        decreases v@.len() - i,
    {
        if v[i] == '\n' {
            let ghost rest = v@.skip(start as int);
            let ghost before = texts(r@);
            proof {
                lemma_until(rest, '\n', i - start);
                assert(rest.take(i - start) =~= v@.subrange(start as int, i as int));
                assert(rest.skip(i - start + 1) =~= v@.skip(i + 1));
            }
            r.push(string_of(cr_slice(slice_subrange(v.as_slice(), start, i))));
            start = i + 1;
            assert(texts(r@) + text_lines(v@.skip(start as int)) =~= before + text_lines(rest));
        }
        i = i + 1;
    }
    let ghost rest = v@.skip(start as int);
    let ghost before = texts(r@);
    if start < v.len() {
        proof {
            lemma_until(rest, '\n', rest.len() as int);
            assert(rest =~= v@.subrange(start as int, v@.len() as int));
        }
        r.push(string_of(slice_subrange(v.as_slice(), start, v.len())));
    }
    assert(texts(r@) =~= before + text_lines(rest));
    r
}

/// Whether `part` stands in `s` at position `i`.
pub open spec fn stands_at(s: Seq<char>, part: Seq<char>, i: int) -> bool {
    0 <= i && i + part.len() <= s.len() && s.subrange(i, i + part.len()) == part
}

/// The first position of `part` in `s`, at `i` or after it.
pub open spec fn first_at(s: Seq<char>, part: Seq<char>, i: int) -> Option<int>
    decreases s.len() + 1 - i,
{
    if i < 0 || i > s.len() {
        None
    } else if stands_at(s, part, i) {
        Some(i)
    } else {
        first_at(s, part, i + 1)
    }
}

fn matches_at(v: &[char], part: &[char], i: usize) -> (r: bool)
    requires
        i <= v@.len(),
    ensures
        r == stands_at(v@, part@, i as int),
{
    if part.len() > v.len() - i {
        return false;
    }
    let mut j: usize = 0;
    while j < part.len()
        invariant
            j <= part@.len(),
            i + part@.len() <= v.len(),
            forall|k: int| 0 <= k < j ==> v@[i + k] == part@[k],
        decreases part@.len() - j,
    {
        if v[i + j] != part[j] {
            assert(v@.subrange(i as int, i + part@.len())[j as int] != part@[j as int]);
            return false;
        }
        j = j + 1;
    }
    assert(v@.subrange(i as int, i + part@.len()) =~= part@);
    true
}

/// What follows the first `part` in `s`.
pub open spec fn rest_after(s: Seq<char>, part: Seq<char>) -> Option<Seq<char>> {
    match first_at(s, part, 0) {
        Some(i) => Some(s.skip(i + part.len())),
        None => None,
    }
}

/// What follows the first `part` in `s`, if it occurs there.
pub fn after(s: &str, part: &str) -> (r: Option<String>)
    ensures
        (match r {
            Some(t) => rest_after(s@, part@) == Some(t@),
            None => rest_after(s@, part@) is None,
        }),
{
    let v: Vec<char> = chars_of(s);
    let p: Vec<char> = chars_of(part);
    let mut i: usize = 0;
    while i < v.len() && !matches_at(v.as_slice(), p.as_slice(), i)
        invariant
            i <= v@.len(),
            v@ == s@,
            p@ == part@,
            first_at(s@, part@, 0) == first_at(s@, part@, i as int),
        decreases v@.len() - i,
    {
        i = i + 1;
    }
    if matches_at(v.as_slice(), p.as_slice(), i) {
        let from: usize = i + p.len();
        assert(v@.skip(from as int) =~= v@.subrange(from as int, v@.len() as int));
        Some(string_of(slice_subrange(v.as_slice(), from, v.len())))
    } else {
        assert(first_at(s@, part@, i + 1) is None);
        None
    }
}

/// What follows `prefix` in `s`, if `s` begins with it.
pub fn after_prefix(s: &str, prefix: &str) -> (r: Option<String>)
    ensures
        (match r {
            Some(t) => stands_at(s@, prefix@, 0) && t@ == s@.skip(prefix@.len() as int),
            None => !stands_at(s@, prefix@, 0),
        }),
{
    let v: Vec<char> = chars_of(s);
    let p: Vec<char> = chars_of(prefix);
    if matches_at(v.as_slice(), p.as_slice(), 0) {
        assert(v@.skip(p@.len() as int) =~= v@.subrange(p@.len() as int, v@.len() as int));
        Some(string_of(slice_subrange(v.as_slice(), p.len(), v.len())))
    } else {
        None
    }
}

/// Whether `c` occurs in `s`.
pub fn contains(s: &str, c: char) -> (r: bool)
    ensures
        r == s@.contains(c),
{
    let v: Vec<char> = chars_of(s);
    let mut i: usize = 0;
    while i < v.len()
        invariant
            i <= v@.len(),
            v@ == s@,
            forall|j: int| 0 <= j < i ==> v@[j] != c,
        decreases v@.len() - i,
    {
        if v[i] == c {
            return true;
        }
        i = i + 1;
    }
    false
}

/// Whether `s` is one of the strings of `list`.
pub fn contains_text(list: &Vec<String>, s: &str) -> (r: bool)
    ensures
        r == texts(list@).contains(s@),
{
    let mut i: usize = 0;
    while i < list.len()
        invariant
            i <= list@.len(),
            forall|j: int| 0 <= j < i ==> texts(list@)[j] != s@,
        decreases list@.len() - i,
    {
        if same(list[i].as_str(), s) {
            assert(texts(list@)[i as int] == s@);
            return true;
        }
        i = i + 1;
    }
    false
}

/// The decimal digit `d`.
pub open spec fn digit(d: nat) -> char
    recommends
        d < 10,
{
    (48 + d) as char
}

/// `n` in decimal, without leading zeros.
pub open spec fn decimal(n: nat) -> Seq<char>
    decreases n,
{
    if n < 10 {
        seq![digit(n)]
    } else {
        decimal(n / 10).push(digit(n % 10))
    }
}

/// `n` in decimal.
pub fn number(n: u128) -> (r: String)
    ensures
        r@ == decimal(n as nat),
    decreases n,
{
    let mut r: String = if n < 10 {
        String::new()
    } else {
        number(n / 10)
    };
    let d: u8 = (n % 10) as u8;
    r.push((48 + d) as char);
    assert(r@ =~= decimal(n as nat));
    r
}

/// Whether every character of `s` is a decimal digit.
pub open spec fn all_digits(s: Seq<char>) -> bool {
    forall|i: int| 0 <= i < s.len() ==> '0' <= #[trigger] s[i] <= '9'
}

/// The number that a sequence of decimal digits writes.
pub open spec fn digits_value(s: Seq<char>) -> int
    decreases s.len(),
{
    if s.len() == 0 {
        0
    } else {
        digits_value(s.drop_last()) * 10 + (s.last() as int - 48)
    }
}

/// The `u32` that `s` writes: an optional `+`, then one or more digits, in range.
pub open spec fn u32_value(s: Seq<char>) -> Option<u32> {
    let body = if s.len() > 0 && s[0] == '+' {
        s.skip(1)
    } else {
        s
    };
    if body.len() > 0 && all_digits(body) && digits_value(body) <= u32::MAX {
        Some(digits_value(body) as u32)
    } else {
        None
    }
}

proof fn lemma_digits_value_grows(s: Seq<char>, i: int)
    requires
        all_digits(s),
        0 <= i <= s.len(),
    ensures
        0 <= digits_value(s.take(i)) <= digits_value(s),
    decreases s.len(),
{
    if i == s.len() {
        assert(s.take(i) =~= s);
        if s.len() > 0 {
            assert(s.drop_last().take(i - 1) =~= s.drop_last());
            lemma_digits_value_grows(s.drop_last(), i - 1);
        }
    } else {
        assert(s.drop_last().take(i) =~= s.take(i));
        lemma_digits_value_grows(s.drop_last(), i);
    }
}

/// The `u32` that `s` writes, if it writes one.
pub fn parse_u32(s: &str) -> (r: Option<u32>)
    ensures
        r == u32_value(s@),
{
    let v: Vec<char> = chars_of(s);
    let from: usize = if v.len() > 0 && v[0] == '+' {
        1
    } else {
        0
    };
    let ghost body = v@.skip(from as int);
    assert(v@.skip(0) =~= v@);
    if from == v.len() {
        return None;
    }
    let mut acc: u64 = 0;
    let mut i: usize = from;
    let mut fits: bool = true;
    assert(body.take(0) =~= Seq::<char>::empty());
    while i < v.len()
        invariant
            from <= i <= v@.len(),
            body == v@.skip(from as int),
            forall|j: int| 0 <= j < i - from ==> '0' <= #[trigger] body[j] <= '9',
            fits ==> acc == digits_value(body.take(i - from)) && acc <= u32::MAX,
            !fits ==> exists|j: int|
                0 <= j <= i - from && digits_value(#[trigger] body.take(j)) > u32::MAX,
            body.len() > 0,
            u32_value(s@) == (if all_digits(body) && digits_value(body) <= u32::MAX {
                Some(digits_value(body) as u32)
            } else {
                None
            }),
        decreases v@.len() - i,
    {
        let c: char = v[i];
        assert(c == body[i - from]);
        if c < '0' || c > '9' {
            return None;
        }
        assert(body.take(i - from + 1).drop_last() =~= body.take(i - from));
        if fits {
            acc = acc * 10 + (c as u32 - 48) as u64;
            assert(acc == digits_value(body.take(i - from + 1)));
            if acc > u32::MAX as u64 {
                fits = false;
            }
        }
        i = i + 1;
    }
    assert(body.take(i - from) =~= body);
    assert(all_digits(body));
    if fits {
        Some(acc as u32)
    } else {
        proof {
            let j = choose|j: int|
                0 <= j <= i - from && digits_value(#[trigger] body.take(j)) > u32::MAX;
            lemma_digits_value_grows(body, j);
        }
        None
    }
}

} // verus!
