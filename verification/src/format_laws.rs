//! What holds of numbers, dates, paths and frames as text.

use crate::calendar::{
    day_number, is_date, is_timestamp, month_len, month_start, stamp_of, year_len, zero_padded,
};
use crate::files::{child_log_path_of, join_of, socket_path_of};
use crate::fleet::{
    canonical_specs, plain_spec, ChildSpecModel, BACKOFF_SECS, ESCALATION_MINS,
    RESTART_STORM_THRESHOLD, RESTART_WINDOW_SECS,
};
use crate::number::{decimal_of, digit_char, is_digit, is_u32, signed_of, unsigned_digits, value_of};
use crate::order::{before, lemma_before_irreflexive, lemma_before_total, lemma_before_transitive};
use crate::protocol::{line_ends, pending_view, ChildModel, ChildStatus};
use crate::text::trim_end_of;
use crate::text_laws::{law_padding_keeps_the_text, law_trim_end_takes_the_set, only};
use vstd::prelude::*;

verus! {

// ---------------------------------------------------------------------------
// Numbers
// ---------------------------------------------------------------------------

/// A number is written in digits, without a zero in front, and reads back as
/// itself.
pub proof fn law_number_is_written_in_digits(n: nat)
    ensures
        decimal_of(n).len() > 0,
        forall|i: int| 0 <= i < decimal_of(n).len() ==> is_digit(#[trigger] decimal_of(n)[i]),
        n > 0 ==> decimal_of(n)[0] != '0',
        n == 0 ==> decimal_of(n) == seq!['0'],
        value_of(decimal_of(n)) == n,
    decreases n,
{
    let d = (n % 10) as nat;
    assert(digit_char(d) as nat == ('0' as nat) + d);
    if n < 10 {
        assert(decimal_of(n).drop_last() == Seq::<char>::empty());
        assert(value_of(decimal_of(n).drop_last()) == 0);
    } else {
        let rest = decimal_of(n / 10);
        law_number_is_written_in_digits(n / 10);
        assert(decimal_of(n).drop_last() == rest);
        assert(decimal_of(n)[0] == rest[0]);
        assert forall|i: int| 0 <= i < decimal_of(n).len() implies is_digit(
            #[trigger] decimal_of(n)[i],
        ) by {
            if i < rest.len() {
                assert(decimal_of(n)[i] == rest[i]);
            }
        }
    }
}

/// The value of digits: each counts ten times what stands behind it.
pub proof fn law_digits_count_in_tens(s: Seq<char>, c: char)
    requires
        '0' <= c <= '9',
    ensures
        value_of(s.push(c)) == 10 * value_of(s) + (c as nat - '0' as nat),
        value_of(Seq::empty()) == 0,
{
    assert(s.push(c).drop_last() == s);
}

/// A text is a number of 32 bits exactly if it is made of digits, with a plus in
/// front or not, and its value fits.
pub proof fn law_number_of_32_bits(digits: Seq<char>)
    requires
        digits.len() > 0,
        forall|i: int| 0 <= i < digits.len() ==> '0' <= #[trigger] digits[i] <= '9',
    ensures
        is_u32(digits) <==> value_of(digits) <= 0xffff_ffff,
        is_u32(seq!['+'] + digits) <==> value_of(digits) <= 0xffff_ffff,
        unsigned_digits(digits) == digits,
        unsigned_digits(seq!['+'] + digits) == digits,
        !is_u32(Seq::empty()),
{
    assert('0' <= digits[0] <= '9');
    let p = seq!['+'] + digits;
    assert(p.drop_first() == digits);
    assert forall|i: int| 0 <= i < digits.len() implies is_digit(#[trigger] digits[i]) by {
        assert('0' <= digits[i] <= '9');
    }
}

/// A text with anything but digits is no number, but for a plus in front.
pub proof fn law_other_text_is_no_number(s: Seq<char>, i: int)
    requires
        0 <= i < s.len(),
        !('0' <= s[i] <= '9'),
        i > 0 || s[0] != '+',
    ensures
        !is_u32(s),
{
    let d = unsigned_digits(s);
    if s.len() > 1 && s[0] == '+' {
        assert(d[i - 1] == s[i]);
    } else {
        assert(d[i] == s[i]);
    }
}

/// A number below zero is written with a minus in front of its amount.
pub proof fn law_signed_number(n: nat)
    ensures
        signed_of(n as int) == decimal_of(n),
        n > 0 ==> signed_of(-(n as int)) == seq!['-'] + decimal_of(n),
{
}

/// Zeros fill up in front, and keep the value.
pub proof fn law_zeros_fill_up(n: nat, width: nat)
    ensures
        zero_padded(n, width).len() == if decimal_of(n).len() < width {
            width
        } else {
            decimal_of(n).len()
        },
        decimal_of(n).is_suffix_of(zero_padded(n, width)),
        forall|i: int|
            0 <= i < zero_padded(n, width).len() - decimal_of(n).len() ==> #[trigger] zero_padded(
                n,
                width,
            )[i] == '0',
{
    law_padding_keeps_the_text(decimal_of(n), width, '0');
}

// ---------------------------------------------------------------------------
// Dates
// ---------------------------------------------------------------------------

/// February has a day more every fourth year, but not in a century that four
/// hundred does not divide; the other months are as long in every year.
pub proof fn law_lengths_of_months(y: int)
    ensures
        month_len(y, 2) == if y % 400 == 0 || (y % 4 == 0 && y % 100 != 0) {
            29int
        } else {
            28
        },
        month_len(y, 1) == 31 && month_len(y, 3) == 31 && month_len(y, 5) == 31,
        month_len(y, 7) == 31 && month_len(y, 8) == 31 && month_len(y, 10) == 31,
        month_len(y, 12) == 31,
        month_len(y, 4) == 30 && month_len(y, 6) == 30 && month_len(y, 9) == 30,
        month_len(y, 11) == 30,
{
}

/// The days are counted from the first of January 1970, and the next day has the
/// next number, within a month, into the next month and into the next year.
pub proof fn law_next_day_has_the_next_number(y: int, m: int, d: int)
    requires
        is_date(y, m, d),
    ensures
        day_number(1970, 1, 1) == 0,
        d < month_len(y, m) ==> is_date(y, m, d + 1) && day_number(y, m, d + 1) == day_number(
            y,
            m,
            d,
        ) + 1,
        d == month_len(y, m) && m < 12 ==> is_date(y, m + 1, 1) && day_number(y, m + 1, 1)
            == day_number(y, m, d) + 1,
        d == month_len(y, m) && m == 12 ==> is_date(y + 1, 1, 1) && day_number(y + 1, 1, 1)
            == day_number(y, m, d) + 1,
{
    if m == 12 {
        reveal_with_fuel(month_start, 13);
        assert(month_start(y, 12) + 31 == year_len(y));
    }
}

/// A time is written as the date of its day and the hours, minutes and seconds
/// that have passed of it.
pub proof fn law_timestamp_says_date_and_time(secs: u64, text: Seq<char>) -> (parts: (
    int,
    int,
    int,
    nat,
    nat,
    nat,
))
    requires
        is_timestamp(secs, text),
    ensures
        ({
            let (y, mo, d, h, mi, s) = parts;
            &&& is_date(y, mo, d)
            &&& h < 24 && mi < 60 && s < 60
            &&& secs == 86400 * day_number(y, mo, d) + 3600 * h + 60 * mi + s
            &&& text == zero_padded(y as nat, 4) + "-"@ + zero_padded(mo as nat, 2) + "-"@
                + zero_padded(d as nat, 2) + "T"@ + zero_padded(h, 2) + ":"@ + zero_padded(mi, 2)
                + ":"@ + zero_padded(s, 2) + "Z"@
        }),
{
    let (y, m, d) = choose|y: int, m: int, d: int|
        {
            &&& #[trigger] is_date(y, m, d)
            &&& day_number(y, m, d) == secs / 86400
            &&& text == stamp_of(
                y as nat,
                m as nat,
                d as nat,
                (secs % 86400 / 3600) as nat,
                (secs % 3600 / 60) as nat,
                (secs % 60) as nat,
            )
        };
    let h = (secs % 86400 / 3600) as nat;
    let mi = (secs % 3600 / 60) as nat;
    let s = (secs % 60) as nat;
    (y, m, d, h, mi, s)
}

// ---------------------------------------------------------------------------
// Paths
// ---------------------------------------------------------------------------

/// Paths are joined with one slash: none is added behind one, and a path that
/// begins with one is taken as it is.
pub proof fn law_paths_are_joined_with_one_slash(base: Seq<char>, rel: Seq<char>)
    requires
        rel.len() > 0 ==> rel[0] != '/',
    ensures
        base.len() > 0 && base.last() != '/' ==> join_of(base, rel) == base + seq!['/'] + rel,
        join_of(base.push('/'), rel) == base.push('/') + rel,
        join_of(Seq::empty(), rel) == rel,
        join_of(base, seq!['/'] + rel) == seq!['/'] + rel,
{
    reveal_strlit("/");
    assert("/"@ == seq!['/']);
    if "/"@.is_prefix_of(rel) {
        assert(rel.subrange(0, 1)[0] == rel[0]);
    }
    if base.len() > 0 && "/"@.is_suffix_of(base) {
        assert(base.subrange(base.len() - 1, base.len() as int)[0] == base.last());
    }
    let b = base.push('/');
    assert(b.subrange(b.len() - 1, b.len() as int) == "/"@);
    let a = seq!['/'] + rel;
    assert(a.subrange(0, 1) == "/"@);
    assert(Seq::<char>::empty() + rel == rel);
}

/// The socket is below the runtime directory, and a child's log below the home
/// directory, under the name of the child; `/tmp` stands for either where it is
/// not known.
pub proof fn law_paths_of_the_supervisor(dir: Seq<char>, child: Seq<char>)
    requires
        dir.len() > 0,
        dir.last() != '/',
        child.len() > 0,
        child[0] != '/',
    ensures
        socket_path_of(Some(dir)) == dir + "/wintermute/init.sock"@,
        socket_path_of(None) == "/tmp/wintermute/init.sock"@,
        child_log_path_of(Some(dir), child) == dir + "/.local/state/wintermute/logs/"@ + child
            + ".log"@,
        child_log_path_of(None, child) == "/tmp/.local/state/wintermute/logs/"@ + child + ".log"@,
{
    reveal_strlit("wintermute");
    reveal_strlit("init.sock");
    reveal_strlit("/tmp");
    reveal_strlit("/wintermute/init.sock");
    reveal_strlit("/tmp/wintermute/init.sock");
    reveal_strlit(".local/state/wintermute/logs");
    reveal_strlit("/.local/state/wintermute/logs/");
    reveal_strlit("/tmp/.local/state/wintermute/logs/");
    reveal_strlit(".log");
    let name = child + ".log"@;
    let logs = ".local/state/wintermute/logs"@;
    assert(name[0] == child[0]);
    law_paths_are_joined_with_one_slash(dir, "wintermute"@);
    law_paths_are_joined_with_one_slash(dir + seq!['/'] + "wintermute"@, "init.sock"@);
    law_paths_are_joined_with_one_slash("/tmp"@, "wintermute"@);
    law_paths_are_joined_with_one_slash("/tmp"@ + seq!['/'] + "wintermute"@, "init.sock"@);
    law_paths_are_joined_with_one_slash(dir, logs);
    law_paths_are_joined_with_one_slash(dir + seq!['/'] + logs, name);
    law_paths_are_joined_with_one_slash("/tmp"@, logs);
    law_paths_are_joined_with_one_slash("/tmp"@ + seq!['/'] + logs, name);
    assert(dir + seq!['/'] + "wintermute"@ + seq!['/'] + "init.sock"@ == dir
        + "/wintermute/init.sock"@);
    assert("/tmp"@ + seq!['/'] + "wintermute"@ + seq!['/'] + "init.sock"@
        == "/tmp/wintermute/init.sock"@);
    assert(dir + seq!['/'] + logs + seq!['/'] + name == dir + "/.local/state/wintermute/logs/"@
        + child + ".log"@);
    assert("/tmp"@ + seq!['/'] + logs + seq!['/'] + name == "/tmp/.local/state/wintermute/logs/"@
        + child + ".log"@);
}

// ---------------------------------------------------------------------------
// Frames, order and the fleet
// ---------------------------------------------------------------------------

/// A frame is opened whatever line feeds and carriage returns are at its end, and
/// nothing else of it is touched.
pub proof fn law_frame_is_opened_at_its_end(json: Seq<char>, ends: Seq<char>)
    requires
        only(ends, seq!['\n', '\r']),
        json.len() > 0 ==> json.last() != '\n' && json.last() != '\r',
    ensures
        line_ends() == seq!['\n', '\r'],
        trim_end_of(json + ends, line_ends()) == json,
{
    let set = seq!['\n', '\r'];
    if json.len() > 0 && set.contains(json.last()) {
        let k = set.index_of(json.last());
        assert(set[k] == json.last());
    }
    law_trim_end_takes_the_set(json, ends, set);
}

/// Texts are ordered by their first different character, and a beginning goes
/// before the whole; of two different texts exactly one goes before the other.
pub proof fn law_texts_are_ordered(p: Seq<char>, a: char, b: char, s: Seq<char>, t: Seq<char>)
    ensures
        a < b ==> before(p.push(a) + s, p.push(b) + t),
        before(p, p.push(a) + s),
        !before(s, s),
        s != t ==> before(s, t) != before(t, s),
{
    lemma_common_front(p, a, b, s, t);
    lemma_before_irreflexive(s);
    lemma_before_total(s, t);
    if before(s, t) && before(t, s) {
        lemma_before_transitive(s, t, s);
    }
}

proof fn lemma_common_front(p: Seq<char>, a: char, b: char, s: Seq<char>, t: Seq<char>)
    ensures
        a < b ==> before(p.push(a) + s, p.push(b) + t),
        before(p, p.push(a) + s),
    decreases p.len(),
{
    let x = p.push(a) + s;
    let y = p.push(b) + t;
    if p.len() > 0 {
        let q = p.drop_first();
        lemma_common_front(q, a, b, s, t);
        assert(x.drop_first() == q.push(a) + s);
        assert(y.drop_first() == q.push(b) + t);
    } else {
        assert(x[0] == a && y[0] == b);
    }
}

/// A new supervisor knows the children of its list, in their order, and of each of
/// them that it has not been started.
pub proof fn law_children_are_pending_at_first(specs: Seq<ChildSpecModel>, i: int)
    requires
        0 <= i < specs.len(),
    ensures
        pending_view(specs).protocol_version == 1,
        !pending_view(specs).muted,
        pending_view(specs).children.len() == specs.len(),
        pending_view(specs).children[i] == (ChildModel {
            name: specs[i].name,
            status: ChildStatus::Pending,
            uptime_secs: 0,
            restart_count: 0,
            last_event: None,
            child_pid: None,
        }),
{
}

/// The fleet's children are started in this order, each as the program of its own
/// name without arguments; and these are the fleet's limits.
pub proof fn law_fleet_is_started_in_order(name: Seq<char>)
    ensures
        canonical_specs().len() == 5,
        canonical_specs()[0] == plain_spec("wm-audio"@),
        canonical_specs()[1] == plain_spec("wm-tts"@),
        canonical_specs()[2] == plain_spec("wm-stt"@),
        canonical_specs()[3] == plain_spec("wm-dialog"@),
        canonical_specs()[4] == plain_spec("wmd"@),
        plain_spec(name) == (ChildSpecModel { name, program: name, args: Seq::empty() }),
        RESTART_WINDOW_SECS == 60,
        RESTART_STORM_THRESHOLD == 5,
        BACKOFF_SECS == 30,
        ESCALATION_MINS == 20,
{
}

} // verus!
