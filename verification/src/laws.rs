//! What holds of the program as a whole.

use vstd::prelude::*;
use vstd::utf8::{
    char_is_scalar, encode_scalar, encode_utf8, encode_utf8_decode_utf8, has_width_1_encoding,
    is_ascii_chars, last_continuation_byte, leading_byte_width_1, leading_byte_width_2,
    leading_byte_width_3, leading_byte_width_4, second_last_continuation_byte,
    third_last_continuation_byte,
};

use crate::cli::{cmd_copy_spec, copy_usage, dispatch_spec, OutputView};
use crate::engine::{
    capture_spec, ocr_image_spec, preprocess_spec, read_spec, run_ocr_spec, size_in,
};
use crate::host::{
    opening, put, put_create, put_dirs, put_flag, put_input, put_place, put_stamp, tolerated,
    Creation, Log, Reply, RequestView, StopView, PRIVATE_MODE,
};
use crate::lang::{
    base_of, detect_layout_spec, fallback_lang, is_lang_code, lang_of_ascii, lang_of_layout,
    lang_of_lowered, list_langs_spec, listed_langs, no_lang, resolve_lang_spec,
};
use crate::options::{default_options, parsed, parsed_from, OptionsView, Parsed};
use crate::paths::{joined, same_path, SLASH};
use crate::tempfile::{
    attempts, dir_name, dir_path, dirs_to_try, fallback_dir, file_in, new_temp_spec,
    temp_dirs_spec, Naming, TempFileView, ATTEMPTS,
};
use crate::text::{
    all_digits, decimal, digit, digits_value, is_space, lemma_until, lemma_until_bounds,
    text_lines, trimmed, trimmed_end, trimmed_start, u32_value, until,
};
use crate::tidy::{ends_here, lemma_tidy_dispatch, lemma_tidy_run_ocr};
use crate::tools::{first_file, which_spec};
use crate::trace::{
    creates, fits, goes, is_base, is_purpose, live, more, past, pending, permitted, proper,
    regular, resumes, sound, Past,
};
use crate::unicode::{ascii_lower, ascii_lowered, ascii_uppered, lowercase, utf8_lossy};
use crate::walk::{lemma_dispatch, lemma_run_ocr};

verus! {

proof fn lemma_opening(replies: Seq<Reply>)
    ensures
        sound(opening(replies)),
        past(opening(replies)) == Past::empty(),
{
    assert(past(opening(replies)) =~= Past::empty());
}

/// Whatever the command line and whatever the machine replies, each request that
/// a command puts is of one of the fixed forms: no program is run but those that
/// are known, with arguments whose number and places are fixed, no shell among
/// them, and each program that is looked up is a file in a directory of the
/// search path. The request that it waits for is such a one too, and it waits
/// only when it has used all the replies.
pub proof fn law_requests_are_permitted(args: Seq<Seq<char>>, replies: Seq<Reply>)
    ensures
        ({
            let (log, r) = dispatch_spec(args, opening(replies));
            &&& log.replies == replies
            &&& log.asked.len() <= replies.len()
            &&& forall|i: int|
                0 <= i < log.asked.len() ==> permitted(
                    #[trigger] log.asked[i],
                    past(log).take(i),
                )
            &&& pending(r) matches Some(request) ==> permitted(request, past(log))
                && log.asked.len() == replies.len()
        }),
{
    let log = opening(replies);
    lemma_opening(replies);
    lemma_dispatch(args, log, Reply::Discarded);
    reveal(regular);
    reveal(goes);
    let next = dispatch_spec(args, log).0;
    assert forall|i: int| 0 <= i < next.asked.len() implies permitted(
        #[trigger] next.asked[i],
        past(next).take(i),
    ) by {
        assert(proper(next.asked[i], past(next).take(i), false));
    }
}

/// One more reply takes a command further from where it was: it has put the same
/// requests, then the one that it waited for. A command that has come to its end
/// is not changed by further replies.
pub proof fn law_commands_resume(args: Seq<Seq<char>>, replies: Seq<Reply>, x: Reply)
    ensures
        resumes(
            dispatch_spec(args, opening(replies)),
            dispatch_spec(args, opening(replies.push(x))),
            x,
        ),
{
    let log = opening(replies);
    lemma_opening(replies);
    lemma_dispatch(args, log, x);
    reveal(regular);
    assert(more(log, x) == opening(replies.push(x)));
}

/// On every way out of a command, with a result or with a failure, each private
/// directory that was made has been removed.
pub proof fn law_nothing_is_left_behind(args: Seq<Seq<char>>, replies: Seq<Reply>)
    ensures
        ends_here(dispatch_spec(args, opening(replies)).1) ==> live(
            past(dispatch_spec(args, opening(replies)).0),
        ) == Set::<Seq<u8>>::empty(),
{
    let log = opening(replies);
    lemma_opening(replies);
    lemma_tidy_dispatch(args, log);
    let s = dispatch_spec(args, log);
    if ends_here(s.1) {
        assert(live(past(s.0)) =~= Set::<Seq<u8>>::empty());
    }
}

/// The same holds of a reading with any options: whatever directories there were
/// before it, none is added on any way out.
pub proof fn law_readings_leave_nothing_behind(opts: OptionsView, log: Log)
    requires
        sound(log),
        ends_here(run_ocr_spec(opts, log).1),
    ensures
        live(past(run_ocr_spec(opts, log).0)).subset_of(live(past(log))),
{
    lemma_tidy_run_ocr(opts, log);
}

/// A reading with any options puts permitted requests only, and one more reply
/// takes it further from where it was.
pub proof fn law_readings_resume(opts: OptionsView, replies: Seq<Reply>, x: Reply)
    ensures
        ({
            let (log, r) = run_ocr_spec(opts, opening(replies));
            &&& forall|i: int|
                0 <= i < log.asked.len() ==> permitted(
                    #[trigger] log.asked[i],
                    past(log).take(i),
                )
            &&& pending(r) matches Some(request) ==> permitted(request, past(log))
        }),
        resumes(
            run_ocr_spec(opts, opening(replies)),
            run_ocr_spec(opts, opening(replies.push(x))),
            x,
        ),
{
    let log = opening(replies);
    lemma_opening(replies);
    lemma_run_ocr(opts, log, x);
    reveal(regular);
    reveal(goes);
    assert(more(log, x) == opening(replies.push(x)));
    let next = run_ocr_spec(opts, log).0;
    assert forall|i: int| 0 <= i < next.asked.len() implies permitted(
        #[trigger] next.asked[i],
        past(next).take(i),
    ) by {
        assert(proper(next.asked[i], past(next).take(i), false));
    }
}

/// Where each reply that a command uses is of the kind that its request asks
/// for, the command does not end in a mismatch.
pub proof fn law_fitting_replies_never_mismatch(args: Seq<Seq<char>>, replies: Seq<Reply>)
    requires
        forall|i: int|
            0 <= i < dispatch_spec(args, opening(replies)).0.asked.len() ==> #[trigger] fits(
                dispatch_spec(args, opening(replies)).0.asked[i],
                replies[i],
            ),
    ensures
        dispatch_spec(args, opening(replies)).1 != Err::<OutputView, StopView>(
            StopView::Mismatch,
        ),
{
    let log = opening(replies);
    lemma_opening(replies);
    lemma_dispatch(args, log, Reply::Discarded);
    reveal(regular);
    law_requests_are_permitted(args, replies);
}

proof fn lemma_split_last<T>(a: Seq<T>, b: Seq<T>, c: Seq<T>, d: Seq<T>, sep: T)
    requires
        a.push(sep) + b == c.push(sep) + d,
        !b.contains(sep),
        !d.contains(sep),
    ensures
        a == c,
        b == d,
{
    let s = a.push(sep) + b;
    let t = c.push(sep) + d;
    assert(s.len() == a.len() + 1 + b.len());
    assert(t.len() == c.len() + 1 + d.len());
    if b.len() < d.len() {
        assert(s[a.len() as int] == sep);
        assert(t[a.len() as int] == d[a.len() - c.len() - 1]);
    } else if d.len() < b.len() {
        assert(t[c.len() as int] == sep);
        assert(s[c.len() as int] == b[c.len() - a.len() - 1]);
    }
    assert(a =~= s.take(a.len() as int));
    assert(c =~= t.take(a.len() as int));
    assert(b =~= s.skip(a.len() as int + 1));
    assert(d =~= t.skip(a.len() as int + 1));
}

pub(crate) proof fn lemma_decimal(n: nat)
    ensures
        decimal(n).len() > 0,
        all_digits(decimal(n)),
        digits_value(decimal(n)) == n,
    decreases n,
{
    let s = decimal(n);
    if n < 10 {
        assert(s.drop_last() =~= Seq::<char>::empty());
        assert(digits_value(s.drop_last()) == 0);
        assert(s.last() == digit(n));
    } else {
        lemma_decimal(n / 10);
        assert(s.drop_last() =~= decimal(n / 10));
        assert(s.last() == digit(n % 10));
        assert(n == (n / 10) * 10 + n % 10);
    }
}

proof fn lemma_decimal_has_no(n: nat, c: char)
    requires
        c < '0' || c > '9',
    ensures
        !decimal(n).contains(c),
{
    lemma_decimal(n);
}

/// The names of private directories with different numbers are different.
pub proof fn law_names_are_distinct(
    n: Naming,
    m: Naming,
    serial: nat,
    other: nat,
    attempt: nat,
    again: nat,
)
    requires
        serial != other,
    ensures
        dir_name(n, serial, attempt) != dir_name(m, other, again),
{
    if dir_name(n, serial, attempt) == dir_name(m, other, again) {
        reveal_strlit("-");
        let head = "textify-"@ + n.prefix + "-"@ + decimal(n.pid as nat) + "-"@ + decimal(
            n.nonce as nat,
        );
        let tail = "textify-"@ + m.prefix + "-"@ + decimal(m.pid as nat) + "-"@ + decimal(
            m.nonce as nat,
        );
        let a = head.push('-') + decimal(serial);
        let c = tail.push('-') + decimal(other);
        assert(dir_name(n, serial, attempt) =~= a.push('-') + decimal(attempt));
        assert(dir_name(m, other, again) =~= c.push('-') + decimal(again));
        lemma_decimal_has_no(attempt, '-');
        lemma_decimal_has_no(again, '-');
        lemma_decimal_has_no(serial, '-');
        lemma_decimal_has_no(other, '-');
        lemma_split_last(a, decimal(attempt), c, decimal(again), '-');
        lemma_split_last(head, decimal(serial), tail, decimal(other), '-');
        lemma_decimal(serial);
        lemma_decimal(other);
    }
}

proof fn lemma_scalar_has_no_slash(c: char)
    requires
        c != '/',
    ensures
        encode_scalar(c as u32).len() > 0,
        !encode_scalar(c as u32).contains(SLASH),
{
    let u = c as u32;
    char_is_scalar(c);
    assert(has_width_1_encoding(u) && u != 0x2f ==> leading_byte_width_1(u) != 0x2f)
        by (bit_vector);
    assert(leading_byte_width_2(u) != 0x2f) by (bit_vector);
    assert(leading_byte_width_3(u) != 0x2f) by (bit_vector);
    assert(leading_byte_width_4(u) != 0x2f) by (bit_vector);
    assert(last_continuation_byte(u) != 0x2f) by (bit_vector);
    assert(second_last_continuation_byte(u) != 0x2f) by (bit_vector);
    assert(third_last_continuation_byte(u) != 0x2f) by (bit_vector);
}

/// A text without a slash has no slash in its bytes.
proof fn lemma_bytes_have_no_slash(s: Seq<char>)
    requires
        !s.contains('/'),
    ensures
        !encode_utf8(s).contains(SLASH),
        s.len() > 0 ==> encode_utf8(s).len() > 0,
    decreases s.len(),
{
    if s.len() > 0 {
        let rest = s.drop_first();
        assert(s.contains(s[0]));
        assert forall|i: int| 0 <= i < rest.len() implies rest[i] != '/' by {
            assert(s.contains(s[i + 1]));
        }
        lemma_scalar_has_no_slash(s[0]);
        lemma_bytes_have_no_slash(rest);
        let head = encode_scalar(s[0] as u32);
        let tail = encode_utf8(rest);
        assert forall|i: int| 0 <= i < (head + tail).len() implies (head + tail)[i] != SLASH by {
            if i < head.len() {
                assert(head.contains(head[i]));
            } else {
                assert(tail.contains(tail[i - head.len()]));
            }
        }
    }
}

proof fn lemma_joined_has_no<T>(a: Seq<T>, b: Seq<T>, c: T)
    requires
        !a.contains(c),
        !b.contains(c),
    ensures
        !(a + b).contains(c),
{
    assert forall|i: int| 0 <= i < (a + b).len() implies (a + b)[i] != c by {
        if i < a.len() {
            assert(a.contains(a[i]));
        } else {
            assert(b.contains(b[i - a.len()]));
        }
    }
}

proof fn lemma_name_has_no_slash(n: Naming, serial: nat, attempt: nat)
    requires
        !n.prefix.contains('/'),
    ensures
        !dir_name(n, serial, attempt).contains('/'),
        dir_name(n, serial, attempt).len() > 0,
{
    reveal_strlit("textify-");
    reveal_strlit("-");
    lemma_decimal_has_no(n.pid as nat, '/');
    lemma_decimal_has_no(n.nonce as nat, '/');
    lemma_decimal_has_no(serial, '/');
    lemma_decimal_has_no(attempt, '/');
    let a = "textify-"@ + n.prefix;
    lemma_joined_has_no("textify-"@, n.prefix, '/');
    lemma_joined_has_no(a, "-"@, '/');
    let b = a + "-"@ + decimal(n.pid as nat);
    lemma_joined_has_no(a + "-"@, decimal(n.pid as nat), '/');
    lemma_joined_has_no(b, "-"@, '/');
    let c = b + "-"@ + decimal(n.nonce as nat);
    lemma_joined_has_no(b + "-"@, decimal(n.nonce as nat), '/');
    lemma_joined_has_no(c, "-"@, '/');
    let d = c + "-"@ + decimal(serial);
    lemma_joined_has_no(c + "-"@, decimal(serial), '/');
    lemma_joined_has_no(d, "-"@, '/');
    lemma_joined_has_no(d + "-"@, decimal(attempt), '/');
    assert(dir_name(n, serial, attempt) == d + "-"@ + decimal(attempt));
}

/// A path that ends in `name` after its last slash, or is `name` itself.
proof fn lemma_joined_form(base: Seq<u8>, name: Seq<u8>)
    requires
        !name.contains(SLASH),
        name.len() > 0,
    ensures
        joined(base, name) == (if base.len() == 0 {
            name
        } else if base.last() == SLASH {
            base.drop_last().push(SLASH) + name
        } else {
            base.push(SLASH) + name
        }),
{
    assert(name[0] != SLASH);
    if base.len() > 0 && base.last() == SLASH {
        assert(base.drop_last().push(SLASH) =~= base);
    } else if base.len() == 0 {
        assert(base + name =~= name);
    }
}

/// The paths of private directories with different numbers are different,
/// wherever the directories stand, for all prefixes without a slash.
pub proof fn law_paths_are_distinct(
    n: Naming,
    m: Naming,
    base: Seq<u8>,
    place: Seq<u8>,
    serial: nat,
    other: nat,
    attempt: nat,
    again: nat,
)
    requires
        !n.prefix.contains('/'),
        !m.prefix.contains('/'),
        serial != other,
    ensures
        dir_path(n, base, serial, attempt) != dir_path(m, place, other, again),
{
    let x = dir_name(n, serial, attempt);
    let y = dir_name(m, other, again);
    let b = encode_utf8(x);
    let d = encode_utf8(y);
    law_names_are_distinct(n, m, serial, other, attempt, again);
    lemma_name_has_no_slash(n, serial, attempt);
    lemma_name_has_no_slash(m, other, again);
    lemma_bytes_have_no_slash(x);
    lemma_bytes_have_no_slash(y);
    lemma_joined_form(base, b);
    lemma_joined_form(place, d);
    encode_utf8_decode_utf8(x);
    encode_utf8_decode_utf8(y);
    assert(b != d);
    let a = if base.len() > 0 && base.last() == SLASH {
        base.drop_last()
    } else {
        base
    };
    let c = if place.len() > 0 && place.last() == SLASH {
        place.drop_last()
    } else {
        place
    };
    if base.len() == 0 && place.len() > 0 {
        assert((c.push(SLASH) + d)[c.len() as int] == SLASH);
    } else if base.len() > 0 && place.len() == 0 {
        assert((a.push(SLASH) + b)[a.len() as int] == SLASH);
    } else if base.len() > 0 {
        if a.push(SLASH) + b == c.push(SLASH) + d {
            lemma_split_last(a, b, c, d, SLASH);
        }
    }
}

proof fn lemma_creates_grows(p: Past, i: int, j: int)
    requires
        0 <= i < j <= p.len(),
        p[i].0 is CreateDir,
    ensures
        creates(p.take(i)) < creates(p.take(j)),
    decreases j,
{
    assert(p.take(j).drop_last() =~= p.take(j - 1));
    if j > i + 1 {
        lemma_creates_grows(p, i, j - 1);
    }
}

/// No command asks twice for the same private directory, and only its owner can
/// enter one.
pub proof fn law_directories_are_distinct(
    args: Seq<Seq<char>>,
    replies: Seq<Reply>,
    i: int,
    j: int,
)
    requires
        0 <= i < j < dispatch_spec(args, opening(replies)).0.asked.len(),
        dispatch_spec(args, opening(replies)).0.asked[i] is CreateDir,
        dispatch_spec(args, opening(replies)).0.asked[j] is CreateDir,
    ensures
        dispatch_spec(args, opening(replies)).0.asked[i]->CreateDir_path != dispatch_spec(
            args,
            opening(replies),
        ).0.asked[j]->CreateDir_path,
        dispatch_spec(args, opening(replies)).0.asked[i]->mode == PRIVATE_MODE,
{
    let log = dispatch_spec(args, opening(replies)).0;
    law_requests_are_permitted(args, replies);
    let p = past(log);
    assert(permitted(log.asked[i], p.take(i)));
    assert(permitted(log.asked[j], p.take(j)));
    lemma_creates_grows(p, i, j);
    let first = log.asked[i]->CreateDir_path;
    let second = log.asked[j]->CreateDir_path;
    let (n, base, attempt) = choose|n: Naming, base: Seq<u8>, attempt: nat|
        is_purpose(n.prefix) && is_base(base, p.take(i)) && attempt < ATTEMPTS
            && first == #[trigger] dir_path(n, base, creates(p.take(i)), attempt);
    let (m, place, again) = choose|m: Naming, place: Seq<u8>, again: nat|
        is_purpose(m.prefix) && is_base(place, p.take(j)) && again < ATTEMPTS
            && second == #[trigger] dir_path(m, place, creates(p.take(j)), again);
    reveal_strlit("region");
    reveal_strlit("full");
    reveal_strlit("proc");
    law_paths_are_distinct(
        n,
        m,
        base,
        place,
        creates(p.take(i)),
        creates(p.take(j)),
        attempt,
        again,
    );
}

/// Whether `next` is a later point of the conversation `log`.
pub open spec fn is_later(log: Log, next: Log) -> bool {
    &&& next.replies == log.replies
    &&& log.asked.is_prefix_of(next.asked)
}

/// Each request takes a conversation to a later point, where the directories are
/// still counted.
pub proof fn law_requests_are_counted(log: Log, request: RequestView)
    requires
        sound(log),
    ensures
        sound(put(log, request).0),
        is_later(log, put(log, request).0),
        log.serial <= put(log, request).0.serial,
{
    if let Ok(reply) = put(log, request).1 {
        assert(past(put(log, request).0).drop_last() =~= past(log));
    }
}

proof fn lemma_later_still(log: Log, next: Log, last: Log)
    requires
        is_later(log, next),
        is_later(next, last),
    ensures
        is_later(log, last),
{
    assert(log.asked =~= last.asked.subrange(0, log.asked.len() as int)) by {
        assert forall|i: int| 0 <= i < log.asked.len() implies log.asked[i] == last.asked[i] by {
            assert(log.asked[i] == next.asked.subrange(0, log.asked.len() as int)[i]);
            assert(next.asked[i] == last.asked.subrange(0, next.asked.len() as int)[i]);
        }
    }
}

proof fn lemma_later_serial(log: Log, next: Log)
    requires
        sound(log),
        sound(next),
        is_later(log, next),
    ensures
        log.serial <= next.serial,
{
    let p = past(log);
    let q = past(next);
    assert(p =~= q.take(p.len() as int));
    lemma_creates_prefix(q, p.len() as int);
}

proof fn lemma_creates_prefix(p: Past, i: int)
    requires
        0 <= i <= p.len(),
    ensures
        creates(p.take(i)) <= creates(p),
    decreases p.len(),
{
    if i == p.len() {
        assert(p.take(i) =~= p);
    } else {
        assert(p.drop_last().take(i) =~= p.take(i));
        lemma_creates_prefix(p.drop_last(), i);
    }
}

/// Whether `file` stands in a private directory whose number is at least `from`
/// and less than `to`.
spec fn is_numbered(file: TempFileView, n: Naming, from: nat, to: nat) -> bool {
    exists|base: Seq<u8>, serial: nat, attempt: nat|
        from <= serial < to && file == file_in(
            n,
            #[trigger] dir_path(n, base, serial, attempt),
        )
}

proof fn lemma_attempts_numbered(n: Naming, dirs: Seq<Seq<u8>>, d: int, a: nat, log: Log)
    requires
        sound(log),
    ensures
        sound(attempts(n, dirs, d, a, log).0),
        is_later(log, attempts(n, dirs, d, a, log).0),
        attempts(n, dirs, d, a, log).1 matches Ok(file) ==> is_numbered(
            file,
            n,
            log.serial,
            attempts(n, dirs, d, a, log).0.serial,
        ),
    decreases dirs.len() - d, ATTEMPTS - a,
{
    if d < 0 || d >= dirs.len() {
    } else if a >= ATTEMPTS {
        lemma_attempts_numbered(n, dirs, d + 1, 0, log);
    } else {
        let dir = dir_path(n, dirs[d], log.serial, a);
        let request = RequestView::CreateDir { path: dir, mode: PRIVATE_MODE };
        law_requests_are_counted(log, request);
        let next = put(log, request).0;
        let r = attempts(n, dirs, d, a, log);
        match put_create(log, dir).1 {
            Ok(Creation::Exists) => {
                lemma_attempts_numbered(n, dirs, d, a + 1, next);
                lemma_later_still(log, next, r.0);
            },
            Ok(Creation::Denied) => {
                lemma_attempts_numbered(n, dirs, d + 1, 0, next);
                lemma_later_still(log, next, r.0);
            },
            _ => {},
        }
        if let Ok(file) = r.1 {
            if put_create(log, dir).1 != Ok::<Creation, StopView>(Creation::Made) {
                let (base, serial, attempt) = choose|base: Seq<u8>, serial: nat, attempt: nat|
                    next.serial <= serial < r.0.serial && file == file_in(
                        n,
                        #[trigger] dir_path(n, base, serial, attempt),
                    );
                assert(file == file_in(n, dir_path(n, base, serial, attempt)));
            }
        }
    }
}

/// Whether `file` was made for `prefix` and `ext`, with such a number.
spec fn is_made(file: TempFileView, prefix: Seq<char>, ext: Seq<char>, from: nat, to: nat) -> bool {
    exists|nonce: u128, pid: u32|
        #[trigger] is_numbered(file, (Naming { prefix, ext, nonce, pid }), from, to)
}

proof fn lemma_temp_dirs_later(log: Log)
    requires
        sound(log),
    ensures
        sound(temp_dirs_spec(log).0),
        is_later(log, temp_dirs_spec(log).0),
        log.serial == temp_dirs_spec(log).0.serial,
{
    law_requests_are_counted(log, RequestView::RuntimeDir);
    let (next, place) = put_place(log);
    if let Ok(Some(path)) = place {
        law_requests_are_counted(next, RequestView::IsDir { path });
        lemma_later_still(log, next, temp_dirs_spec(log).0);
    }
}

proof fn lemma_new_temp_made(prefix: Seq<char>, ext: Seq<char>, log: Log)
    requires
        sound(log),
    ensures
        sound(new_temp_spec(prefix, ext, log).0),
        is_later(log, new_temp_spec(prefix, ext, log).0),
        new_temp_spec(prefix, ext, log).1 matches Ok(file) ==> is_made(
            file,
            prefix,
            ext,
            log.serial,
            new_temp_spec(prefix, ext, log).0.serial,
        ),
{
    law_requests_are_counted(log, RequestView::Stamp);
    let (l1, stamp) = put_stamp(log);
    if let Ok((nonce, pid)) = stamp {
        let n = Naming { prefix, ext, nonce, pid };
        lemma_temp_dirs_later(l1);
        let (l2, dirs) = temp_dirs_spec(l1);
        lemma_later_still(log, l1, l2);
        if let Ok(dirs) = dirs {
            lemma_attempts_numbered(n, dirs, 0, 0, l2);
            let (l3, made) = attempts(n, dirs, 0, 0, l2);
            lemma_later_still(log, l2, l3);
            if let Ok(file) = made {
                assert(is_numbered(file, n, log.serial, l3.serial));
            }
        }
    }
}

/// Making a temporary file takes a conversation to a later point, where the
/// directories are still counted, on every way out.
pub proof fn law_temp_files_are_counted(prefix: Seq<char>, ext: Seq<char>, log: Log)
    requires
        sound(log),
    ensures
        sound(new_temp_spec(prefix, ext, log).0),
        is_later(log, new_temp_spec(prefix, ext, log).0),
{
    lemma_new_temp_made(prefix, ext, log);
}

/// The path of a temporary file is that of its directory, a slash and the name.
proof fn lemma_file_in_form(n: Naming, base: Seq<u8>, serial: nat, attempt: nat)
    requires
        !n.prefix.contains('/'),
    ensures
        ({
            let dir = dir_path(n, base, serial, attempt);
            file_in(n, dir).path == dir.push(SLASH) + encode_utf8("output."@ + n.ext)
        }),
{
    let name = dir_name(n, serial, attempt);
    let b = encode_utf8(name);
    let dir = dir_path(n, base, serial, attempt);
    let file = "output."@ + n.ext;
    reveal_strlit("output.");
    lemma_name_has_no_slash(n, serial, attempt);
    lemma_bytes_have_no_slash(name);
    lemma_joined_form(base, b);
    assert(dir.last() == b.last());
    assert(b.contains(b.last()));
    lemma_scalar_has_no_slash(file[0]);
    let head = encode_scalar(file[0] as u32);
    assert(head.contains(head[0]));
    assert(encode_utf8(file)[0] == head[0]);
}

/// Paths of files in two directories are equal only if one of the files' names
/// holds a slash and leads into the other directory.
proof fn lemma_files_differ(a: Seq<u8>, x: Seq<u8>, b: Seq<u8>, y: Seq<u8>)
    requires
        a != b,
        a.push(SLASH) + x == b.push(SLASH) + y,
        a.len() <= b.len(),
    ensures
        x.contains(SLASH),
        a.push(SLASH).is_prefix_of(b),
        b.push(SLASH).is_prefix_of(a.push(SLASH) + x),
{
    let p = a.push(SLASH) + x;
    let q = b.push(SLASH) + y;
    if a.len() == b.len() {
        assert(a =~= p.take(a.len() as int));
        assert(b =~= q.take(b.len() as int));
    }
    assert forall|i: int| 0 <= i <= a.len() implies a.push(SLASH)[i] == #[trigger] b[i] by {
        assert(p[i] == q[i]);
    }
    assert(a.push(SLASH) =~= b.subrange(0, a.len() as int + 1));
    assert(b.push(SLASH) =~= p.subrange(0, b.len() as int + 1));
    let k = b.len() - a.len() - 1;
    assert(q[b.len() as int] == SLASH);
    assert(p.len() == a.len() + 1 + x.len());
    assert(q.len() == b.len() + 1 + y.len());
    assert(0 <= k < x.len());
    assert(p[b.len() as int] == x[k]);
    assert(x[k] == SLASH);
}

proof fn lemma_file_name(ext: Seq<char>)
    requires
        !ext.contains('/'),
    ensures
        !encode_utf8("output."@ + ext).contains(SLASH),
{
    reveal_strlit("output.");
    lemma_joined_has_no("output."@, ext, '/');
    lemma_bytes_have_no_slash("output."@ + ext);
}

/// Whether the directory of `b` lies in that of `a`, on the way to the file `a`.
pub open spec fn encloses(a: TempFileView, b: TempFileView) -> bool {
    &&& a.dir.push(SLASH).is_prefix_of(b.dir)
    &&& b.dir.push(SLASH).is_prefix_of(a.path)
}

proof fn lemma_numbered_differ(
    a: TempFileView,
    n: Naming,
    from: nat,
    b: TempFileView,
    m: Naming,
    start: nat,
    to: nat,
)
    requires
        is_numbered(a, n, from, start),
        is_numbered(b, m, start, to),
        !n.prefix.contains('/'),
        !m.prefix.contains('/'),
    ensures
        a.dir != b.dir,
        a.path == b.path ==> n.ext.contains('/') && encloses(a, b) || m.ext.contains('/')
            && encloses(b, a),
{
    let (base, serial, attempt) = choose|base: Seq<u8>, serial: nat, attempt: nat|
        from <= serial < start && a == file_in(n, #[trigger] dir_path(n, base, serial, attempt));
    let (place, other, again) = choose|base: Seq<u8>, serial: nat, attempt: nat|
        start <= serial < to && b == file_in(m, #[trigger] dir_path(m, base, serial, attempt));
    law_paths_are_distinct(n, m, base, place, serial, other, attempt, again);
    lemma_file_in_form(n, base, serial, attempt);
    lemma_file_in_form(m, place, other, again);
    let x = encode_utf8("output."@ + n.ext);
    let y = encode_utf8("output."@ + m.ext);
    if a.path == b.path {
        if a.dir.len() <= b.dir.len() {
            lemma_files_differ(a.dir, x, b.dir, y);
            if !n.ext.contains('/') {
                lemma_file_name(n.ext);
            }
        } else {
            lemma_files_differ(b.dir, y, a.dir, x);
            if !m.ext.contains('/') {
                lemma_file_name(m.ext);
            }
        }
    }
}

/// No two calls in one conversation make the same temporary file: the second
/// directory differs from the first, whether that is still there or not, for all
/// prefixes without a slash. The paths of the files differ too, if there is no
/// slash in the extensions or neither directory lies in the other; they are equal
/// only where an extension leads through a slash into the other directory.
pub proof fn law_temp_files_are_distinct(
    prefix: Seq<char>,
    ext: Seq<char>,
    log: Log,
    other_prefix: Seq<char>,
    other_ext: Seq<char>,
    later: Log,
)
    requires
        sound(log),
        sound(later),
        new_temp_spec(prefix, ext, log).1 is Ok,
        is_later(new_temp_spec(prefix, ext, log).0, later),
        new_temp_spec(other_prefix, other_ext, later).1 is Ok,
        !prefix.contains('/'),
        !other_prefix.contains('/'),
    ensures
        ({
            let a = new_temp_spec(prefix, ext, log).1->Ok_0;
            let b = new_temp_spec(other_prefix, other_ext, later).1->Ok_0;
            &&& a.dir != b.dir
            &&& !ext.contains('/') && !other_ext.contains('/') ==> a.path != b.path
            &&& !a.dir.push(SLASH).is_prefix_of(b.dir) && !b.dir.push(SLASH).is_prefix_of(a.dir)
                ==> a.path != b.path
            &&& a.path == b.path ==> ext.contains('/') && encloses(a, b) || other_ext.contains('/')
                && encloses(b, a)
        }),
{
    let s = new_temp_spec(prefix, ext, log);
    let t = new_temp_spec(other_prefix, other_ext, later);
    lemma_new_temp_made(prefix, ext, log);
    lemma_later_serial(s.0, later);
    lemma_new_temp_made(other_prefix, other_ext, later);
    let a = s.1->Ok_0;
    let b = t.1->Ok_0;
    let (nonce, pid) = choose|nonce: u128, pid: u32|
        #[trigger] is_numbered(a, (Naming { prefix, ext, nonce, pid }), log.serial, s.0.serial);
    let n = Naming { prefix, ext, nonce, pid };
    let (nonce2, pid2) = choose|nonce: u128, pid: u32|
        #[trigger] is_numbered(
            b,
            (Naming { prefix: other_prefix, ext: other_ext, nonce, pid }),
            later.serial,
            t.0.serial,
        );
    let m = Naming { prefix: other_prefix, ext: other_ext, nonce: nonce2, pid: pid2 };
    assert(is_numbered(a, n, log.serial, later.serial));
    lemma_numbered_differ(a, n, log.serial, b, m, later.serial, t.0.serial);
}

/// There is always a place for temporary directories: `/tmp` is among them, in
/// this or another spelling, and no place is named twice.
pub proof fn law_temp_dirs(runtime: Option<Seq<u8>>)
    ensures
        dirs_to_try(runtime).len() > 0,
        same_path(dirs_to_try(runtime).last(), fallback_dir()),
        forall|i: int, j: int|
            0 <= i < j < dirs_to_try(runtime).len() ==> !same_path(
                #[trigger] dirs_to_try(runtime)[i],
                #[trigger] dirs_to_try(runtime)[j],
            ),
{
}

proof fn lemma_which_asks(name: Seq<char>, log: Log)
    ensures
        quiet_since(log, which_spec(name, log).0),
{
    let (next, r) = put_dirs(log);
    if let Ok(dirs) = r {
        lemma_first_file_asks(name, dirs, 0, next);
    }
}

proof fn lemma_first_file_asks(name: Seq<char>, dirs: Seq<Seq<u8>>, i: int, log: Log)
    ensures
        quiet_since(log, first_file(name, dirs, i, log).0),
    decreases dirs.len() - i,
{
    if 0 <= i < dirs.len() {
        let path = joined(dirs[i], encode_utf8(name));
        let next = put_flag(log, RequestView::IsFile { path });
        if next.1 == Ok::<bool, StopView>(false) {
            lemma_first_file_asks(name, dirs, i + 1, next.0);
        }
    }
}

/// Whether no program was run and no text was handed on between `log` and `next`.
spec fn quiet_since(log: Log, next: Log) -> bool {
    &&& log.asked.len() <= next.asked.len()
    &&& forall|i: int| 0 <= i < log.asked.len() ==> next.asked[i] == log.asked[i]
    &&& forall|i: int|
        log.asked.len() <= i < next.asked.len() ==> !(#[trigger] next.asked[i] is Run)
            && !(next.asked[i] is Pipe)
}

/// The command `copy` shows the text to no process listing: it takes no
/// arguments, it runs no program with arguments, and what it hands on is handed
/// on through a standard input.
pub proof fn law_copy_keeps_text_out_of_arguments(raw: Seq<Seq<char>>, replies: Seq<Reply>)
    ensures
        raw.len() > 0 ==> cmd_copy_spec(raw, opening(replies)) == (
            opening(replies),
            Err::<OutputView, StopView>(StopView::Fail(copy_usage())),
        ),
        ({
            let log = cmd_copy_spec(raw, opening(replies)).0;
            forall|i: int|
                0 <= i < log.asked.len() ==> {
                    &&& !(#[trigger] log.asked[i] is Run)
                    &&& log.asked[i] matches RequestView::Pipe { input, .. } ==> {
                        &&& replies[0] matches Reply::Input(Ok(text))
                        &&& input == text@
                    }
                }
        }),
{
    if raw.len() == 0 {
        let log = opening(replies);
        let (l1, r) = put_input(log);
        if r is Ok {
            lemma_which_asks("wl-copy"@, l1);
        }
    }
}

/// Every word in the list of languages is a code.
pub proof fn law_listed_langs_are_codes(listing: Seq<char>, i: int)
    requires
        0 <= i < listed_langs(listing).len(),
    ensures
        is_lang_code(listed_langs(listing)[i]),
{
    let words = text_lines(listing).map_values(|line: Seq<char>| trimmed(line));
    words.lemma_filter_pred(|word: Seq<char>| is_lang_code(word), i);
}

/// A requested language that is installed is the one that is used, and no layout
/// is asked for.
pub proof fn law_requested_lang_comes_first(requested: Seq<char>, log: Log)
    requires
        requested.len() > 0,
        list_langs_spec(log).1 matches Ok(langs) && langs.contains(requested),
    ensures
        resolve_lang_spec(requested, log) == (
            list_langs_spec(log).0,
            Ok::<Seq<char>, StopView>(requested),
        ),
{
}

/// The language that is settled on is installed.
pub proof fn law_settled_lang_is_installed(requested: Seq<char>, log: Log)
    requires
        resolve_lang_spec(requested, log).1 is Ok,
    ensures
        list_langs_spec(log).1 matches Ok(langs) && langs.contains(
            resolve_lang_spec(requested, log).1->Ok_0,
        ),
{
    let (next, r) = list_langs_spec(log);
    if let Ok(langs) = r {
        if let Ok(layout) = detect_layout_spec(next).1 {
            if langs.len() > 0 {
                assert(langs.contains(langs[0]));
            }
        }
    }
}

/// Where anything is installed there is a language to use, and English is used
/// before any other that nobody asked for; where nothing is installed it fails.
pub proof fn law_fallback_lang(langs: Seq<Seq<char>>, detected: Seq<char>)
    ensures
        fallback_lang(langs, detected) is Ok <==> langs.len() > 0,
        langs.len() == 0 ==> fallback_lang(langs, detected) == Err::<Seq<char>, StopView>(
            StopView::Fail(no_lang()),
        ),
        langs.contains("eng"@) && !langs.contains(detected)
            ==> fallback_lang(langs, detected) == Ok::<Seq<char>, StopView>("eng"@),
{
}

pub(crate) proof fn lemma_trim_start_keeps(s: Seq<char>)
    requires
        s.len() == 0 || !is_space(s[0]),
    ensures
        trimmed_start(s) == s,
{
}

pub(crate) proof fn lemma_trim_end_keeps(s: Seq<char>)
    requires
        s.len() == 0 || !is_space(s.last()),
    ensures
        trimmed_end(s) == s,
{
}

pub(crate) proof fn lemma_trimmed_end_prefix(s: Seq<char>, k: int)
    requires
        0 <= k <= s.len(),
        k > 0 ==> !is_space(s[k - 1]),
    ensures
        k <= trimmed_end(s).len() <= s.len(),
        trimmed_end(s) == s.take(trimmed_end(s).len() as int),
        trimmed_end(s).len() > 0 ==> !is_space(trimmed_end(s).last()),
    decreases s.len(),
{
    if s.len() > 0 && is_space(s.last()) {
        lemma_trimmed_end_prefix(s.drop_last(), k);
        let n = trimmed_end(s).len() as int;
        assert(s.drop_last().take(n) =~= s.take(n));
    } else {
        assert(s.take(s.len() as int) =~= s);
    }
}

proof fn lemma_trimmed_start_ends(s: Seq<char>)
    ensures
        trimmed_start(s).len() > 0 ==> !is_space(trimmed_start(s)[0]),
        trimmed_start(s).len() <= s.len(),
    decreases s.len(),
{
    if s.len() > 0 && is_space(s[0]) {
        lemma_trimmed_start_ends(s.skip(1));
    }
}

proof fn lemma_trimmed_ends(s: Seq<char>)
    ensures
        trimmed(s).len() > 0 ==> !is_space(trimmed(s)[0]) && !is_space(trimmed(s).last()),
{
    lemma_trimmed_start_ends(s);
    lemma_trimmed_end_prefix(trimmed_start(s), 0);
    let t = trimmed_start(s);
    if trimmed(s).len() > 0 {
        assert(trimmed(s)[0] == t.take(trimmed(s).len() as int)[0]);
    }
}

proof fn lemma_trim_start_map(s: Seq<char>, f: spec_fn(char) -> char)
    requires
        forall|c: char| is_space(#[trigger] f(c)) == is_space(c),
    ensures
        trimmed_start(s.map_values(f)) == trimmed_start(s).map_values(f),
    decreases s.len(),
{
    if s.len() > 0 && is_space(s[0]) {
        lemma_trim_start_map(s.skip(1), f);
        assert(s.map_values(f).skip(1) =~= s.skip(1).map_values(f));
    }
}

proof fn lemma_trim_end_map(s: Seq<char>, f: spec_fn(char) -> char)
    requires
        forall|c: char| is_space(#[trigger] f(c)) == is_space(c),
    ensures
        trimmed_end(s.map_values(f)) == trimmed_end(s).map_values(f),
    decreases s.len(),
{
    if s.len() > 0 && is_space(s.last()) {
        lemma_trim_end_map(s.drop_last(), f);
        assert(s.map_values(f).drop_last() =~= s.drop_last().map_values(f));
    }
}

proof fn lemma_trimmed_twice(s: Seq<char>)
    ensures
        trimmed(trimmed(s)) == trimmed(s),
{
    lemma_trimmed_ends(s);
    lemma_trim_start_keeps(trimmed(s));
    lemma_trim_end_keeps(trimmed(s));
}

proof fn lemma_trimmed_part(s: Seq<char>, i: int)
    requires
        0 <= i < trimmed(s).len(),
    ensures
        s.contains(trimmed(s)[i]),
{
    lemma_trimmed_start_part(s);
    let t = trimmed_start(s);
    lemma_trimmed_end_prefix(t, 0);
    assert(trimmed(s)[i] == t.take(trimmed(s).len() as int)[i]);
    assert(t.contains(t[i]));
}

proof fn lemma_trimmed_start_part(s: Seq<char>)
    ensures
        forall|c: char| trimmed_start(s).contains(c) ==> s.contains(c),
    decreases s.len(),
{
    if s.len() > 0 && is_space(s[0]) {
        let rest = s.skip(1);
        lemma_trimmed_start_part(rest);
        assert forall|c: char| trimmed_start(s).contains(c) implies s.contains(c) by {
            assert(trimmed_start(rest).contains(c));
            assert(rest.contains(c));
            let i = choose|i: int| 0 <= i < rest.len() && rest[i] == c;
            assert(s[i + 1] == c);
        }
    }
}

/// White space around a layout's name in lower case makes no difference.
pub proof fn law_space_around_a_layout_is_ignored(lowered: Seq<char>)
    ensures
        lang_of_lowered(trimmed(lowered)) == lang_of_lowered(lowered),
{
    lemma_trimmed_twice(lowered);
}

/// Layouts that are alike in lower case, but for white space around them, have the
/// same language.
pub proof fn law_layouts_alike_in_lower_case(layout: Seq<char>, other: Seq<char>)
    ensures
        trimmed(lowercase(layout)) == trimmed(lowercase(other)) ==> lang_of_layout(layout)
            == lang_of_layout(other),
{
}

/// For a layout in ASCII neither capital nor small letters make a difference, nor
/// does white space around it. What is made of it is in ASCII again.
pub proof fn law_case_of_a_layout_is_ignored(layout: Seq<char>)
    requires
        is_ascii_chars(layout),
    ensures
        lang_of_ascii(ascii_uppered(layout)) == lang_of_ascii(layout),
        lang_of_ascii(ascii_lowered(layout)) == lang_of_ascii(layout),
        lang_of_ascii(trimmed(layout)) == lang_of_ascii(layout),
        is_ascii_chars(ascii_uppered(layout)),
        is_ascii_chars(ascii_lowered(layout)),
        is_ascii_chars(trimmed(layout)),
{
    let f = |c: char| ascii_lower(c);
    assert(ascii_lowered(ascii_uppered(layout)) =~= ascii_lowered(layout));
    assert(ascii_lowered(ascii_lowered(layout)) =~= ascii_lowered(layout));
    lemma_trim_start_map(layout, f);
    lemma_trim_end_map(trimmed_start(layout), f);
    assert(ascii_lowered(trimmed(layout)) == trimmed(ascii_lowered(layout)));
    law_space_around_a_layout_is_ignored(ascii_lowered(layout));
    assert forall|i: int| 0 <= i < trimmed(layout).len() implies '\0' <= #[trigger] trimmed(
        layout,
    )[i] <= '\u{7f}' by {
        lemma_trimmed_part(layout, i);
    }
}

/// Whether the first white space after a layout's name, if any follows it, is a
/// space.
pub open spec fn ends_plainly(layout: Seq<char>) -> bool {
    let rest = trimmed_start(layout);
    trimmed(layout).len() < rest.len() ==> rest[trimmed(layout).len() as int] == ' '
}

/// What follows a layout's name makes no difference: a country in parentheses,
/// directly or after a space, nor anything after a space. The latter needs a name
/// before the space.
pub proof fn law_layout_suffix_is_ignored(name: Seq<char>, suffix: Seq<char>)
    requires
        ends_plainly(name),
    ensures
        lang_of_lowered(name + seq!['('] + suffix) == lang_of_lowered(name),
        lang_of_lowered(name + seq![' ', '('] + suffix) == lang_of_lowered(name),
        trimmed(name).len() > 0 ==> lang_of_lowered(name + seq![' '] + suffix)
            == lang_of_lowered(name),
{
    let a = seq!['('] + suffix;
    let b = seq![' ', '('] + suffix;
    let c = seq![' '] + suffix;
    assert(name + seq!['('] + suffix =~= name + a);
    assert(name + seq![' ', '('] + suffix =~= name + b);
    assert(name + seq![' '] + suffix =~= name + c);
    if trimmed(name).len() > 0 {
        lemma_suffix(name, a);
        lemma_suffix(name, b);
        lemma_suffix(name, c);
    } else {
        lemma_trimmed_start_ends(name);
        lemma_trimmed_end_prefix(trimmed_start(name), 0);
        if trimmed_start(name).len() > 0 {
            lemma_trimmed_end_prefix(trimmed_start(name), 1);
        }
        lemma_trim_start_joined(name, a);
        lemma_trim_start_joined(name, b);
        assert(b.skip(1) =~= a);
        assert(trimmed_start(b) == trimmed_start(a));
        lemma_trim_start_keeps(a);
        lemma_trimmed_end_prefix(a, 1);
        let t = trimmed_end(a);
        assert(t[0] == a.take(t.len() as int)[0]);
        lemma_base_prefix(trimmed(name), t);
    }
}

pub(crate) proof fn lemma_trim_start_joined(s: Seq<char>, t: Seq<char>)
    ensures
        trimmed_start(s + t) == if trimmed_start(s).len() > 0 {
            trimmed_start(s) + t
        } else {
            trimmed_start(t)
        },
    decreases s.len(),
{
    if s.len() == 0 {
        assert(s + t =~= t);
    } else if is_space(s[0]) {
        assert((s + t).skip(1) =~= s.skip(1) + t);
        lemma_trim_start_joined(s.skip(1), t);
    }
}

proof fn lemma_suffix(name: Seq<char>, suffix: Seq<char>)
    requires
        ends_plainly(name),
        trimmed(name).len() > 0,
        suffix.len() > 0,
        suffix[0] == '(' || suffix[0] == ' ',
    ensures
        base_of(trimmed(name + suffix)) == base_of(trimmed(name)),
{
    let rest = trimmed_start(name);
    let core = trimmed(name);
    let n = core.len() as int;
    lemma_trimmed_ends(name);
    lemma_trimmed_end_prefix(rest, 0);
    lemma_trim_start_joined(name, suffix);
    let s = rest + suffix;
    assert forall|i: int| 0 <= i < n implies s[i] == #[trigger] core[i] by {
        assert(rest.take(n)[i] == rest[i]);
    }
    lemma_trimmed_end_prefix(s, n);
    let t = trimmed_end(s);
    assert forall|i: int| 0 <= i < t.len() implies t[i] == #[trigger] s[i] by {
        assert(s.take(t.len() as int)[i] == s[i]);
    }
    if t.len() == n {
        assert(t =~= core);
    } else {
        assert forall|i: int| 0 <= i < n implies t[i] == #[trigger] core[i] by {
            assert(t[i] == s[i]);
        }
        assert(t[n] == s[n]);
        lemma_base_prefix(core, t);
    }
}

/// The base of a name is found at its first parenthesis or space.
proof fn lemma_base_prefix(name: Seq<char>, t: Seq<char>)
    requires
        t.len() > name.len(),
        forall|i: int| 0 <= i < name.len() ==> t[i] == #[trigger] name[i],
        t[name.len() as int] == '(' || t[name.len() as int] == ' ',
    ensures
        base_of(t) == base_of(name),
{
    let n = name.len() as int;
    lemma_until_bounds(name, '(');
    lemma_until_bounds(name, ' ');
    lemma_until_bounds(t, '(');
    lemma_until_bounds(t, ' ');
    let k = if until(name, '(') <= until(name, ' ') {
        until(name, '(')
    } else {
        until(name, ' ')
    };
    let m = if until(t, '(') <= until(t, ' ') {
        until(t, '(')
    } else {
        until(t, ' ')
    };
    if m < k {
        assert(t[m] == name[m]);
    } else if k < m {
        if k < n {
            assert(t[k] == name[k]);
        }
    }
    assert(t.take(m) =~= name.take(k));
}

/// The size of an image is read back as it is written: the width, an `x` and
/// the height.
pub proof fn law_size_is_read_back(w: u32, h: u32)
    ensures
        size_in(decimal(w as nat) + "x"@ + decimal(h as nat)) == (w, h),
{
    reveal_strlit("x");
    let a = decimal(w as nat);
    let b = decimal(h as nat);
    let s = a + "x"@ + b;
    lemma_decimal(w as nat);
    lemma_decimal(h as nat);
    assert(s[0] == a[0]);
    assert(s.last() == b.last());
    lemma_trim_start_keeps(s);
    lemma_trim_end_keeps(s);
    assert forall|j: int| 0 <= j < a.len() implies s[j] != 'x' by {
        assert(s[j] == a[j]);
    }
    assert(s[a.len() as int] == 'x');
    lemma_until(s, 'x', a.len() as int);
    assert(s.take(a.len() as int) =~= a);
    assert(s.skip(a.len() as int + 1) =~= b);
    assert(u32_value(a) == Some(w));
    assert(u32_value(b) == Some(h));
}

/// What a reading comes to: its text has no white space at its end, its language
/// is installed, it names its source, and the text was copied only if that was
/// asked for and there was something to copy.
pub proof fn law_reading(opts: OptionsView, log: Log)
    requires
        run_ocr_spec(opts, log).1 is Ok,
    ensures
        ({
            let result = run_ocr_spec(opts, log).1->Ok_0;
            &&& result.text.len() > 0 ==> !is_space(result.text.last())
            &&& result.copied ==> opts.copy && result.text.len() > 0
            &&& result.source == (match opts.file {
                Some(path) => path,
                None => "screen"@,
            })
            &&& list_langs_spec(log).1 matches Ok(langs) && langs.contains(result.lang)
        }),
{
    law_settled_lang_is_installed(opts.lang, log);
    let (l1, r1) = resolve_lang_spec(opts.lang, log);
    let lang = r1->Ok_0;
    match opts.file {
        Some(path) => {
            let l2 = put_flag(
                l1,
                RequestView::IsFile { path: encode_utf8(path) },
            ).0;
            lemma_read_result(opts.copy, lang, path, path, l2);
        },
        None => {
            let (l2, r2) = capture_spec(opts.region, l1);
            let shot = r2->Ok_0;
            let source = utf8_lossy(shot.path);
            let (l3, r3) = tolerated(
                preprocess_spec(source, l2),
            );
            match r3->Ok_0 {
                Some(prepared) => {
                    let input = utf8_lossy(prepared.path);
                    lemma_read_result(opts.copy, lang, "screen"@, input, l3);
                },
                None => {
                    lemma_read_result(opts.copy, lang, "screen"@, source, l3);
                },
            }
        },
    }
}

proof fn lemma_read_result(
    wanted: bool,
    lang: Seq<char>,
    source: Seq<char>,
    input: Seq<char>,
    log: Log,
)
    ensures
        read_spec(wanted, lang, source, input, log).1 matches Ok(result) ==> {
            &&& result.text.len() > 0 ==> !is_space(result.text.last())
            &&& result.copied ==> wanted && result.text.len() > 0
            &&& result.source == source
            &&& result.lang == lang
        },
{
    if let Ok(text) = ocr_image_spec(input, lang, log).1 {
        lemma_trimmed_end_prefix(text, 0);
        if trimmed(text).len() > 0 {
            lemma_blank(text);
        }
    }
}

proof fn lemma_blank(s: Seq<char>)
    requires
        trimmed(s).len() > 0,
    ensures
        trimmed_end(s).len() > 0,
    decreases s.len(),
{
    if trimmed_end(s).len() == 0 {
        lemma_all_spaces(s);
        lemma_spaces_go(s);
    }
}

proof fn lemma_all_spaces(s: Seq<char>)
    requires
        trimmed_end(s).len() == 0,
    ensures
        forall|i: int| 0 <= i < s.len() ==> is_space(#[trigger] s[i]),
    decreases s.len(),
{
    if s.len() > 0 {
        lemma_all_spaces(s.drop_last());
        assert forall|i: int| 0 <= i < s.len() implies is_space(#[trigger] s[i]) by {
            if i < s.len() - 1 {
                assert(s.drop_last()[i] == s[i]);
            }
        }
    }
}

pub(crate) proof fn lemma_spaces_go(s: Seq<char>)
    requires
        forall|i: int| 0 <= i < s.len() ==> is_space(#[trigger] s[i]),
    ensures
        trimmed_start(s).len() == 0,
    decreases s.len(),
{
    if s.len() > 0 {
        assert forall|i: int| 0 <= i < s.skip(1).len() implies is_space(
            #[trigger] s.skip(1)[i],
        ) by {
            assert(s.skip(1)[i] == s[i + 1]);
        }
        lemma_spaces_go(s.skip(1));
    }
}

/// Words that are no options stay as they are, in their order, and the options
/// keep their defaults.
pub proof fn law_plain_words_are_positional(raw: Seq<Seq<char>>)
    requires
        forall|i: int|
            0 <= i < raw.len() ==> #[trigger] raw[i] != "--lang"@ && raw[i] != "--copy"@ && raw[i]
                != "--json"@,
    ensures
        parsed(raw) == Ok::<Parsed, StopView>(
            (Parsed { opts: default_options(), positional: raw }),
        ),
{
    assert(raw.take(0) =~= Seq::<Seq<char>>::empty());
    lemma_plain_words(raw, 0);
}

proof fn lemma_plain_words(raw: Seq<Seq<char>>, i: int)
    requires
        0 <= i <= raw.len(),
        forall|j: int|
            0 <= j < raw.len() ==> #[trigger] raw[j] != "--lang"@ && raw[j] != "--copy"@ && raw[j]
                != "--json"@,
    ensures
        parsed_from(
            raw,
            i,
            (Parsed { opts: default_options(), positional: raw.take(i) }),
        ) == Ok::<Parsed, StopView>((Parsed { opts: default_options(), positional: raw })),
    decreases raw.len() - i,
{
    if i < raw.len() {
        assert(raw.take(i).push(raw[i]) =~= raw.take(i + 1));
        lemma_plain_words(raw, i + 1);
    } else {
        assert(raw.take(i) =~= raw);
    }
}

} // verus!
