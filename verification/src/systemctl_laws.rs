//! What holds of the manager's answers.

use crate::commands::{exit_detail_of, CommandOutcome};
use crate::number::signed_of;
use crate::systemctl::{
    first_words, is_command_result, is_failed_answer, is_json_listing, is_text_listing,
    list_json_args, list_text_args, operand_of, operation_of, quoted_value, unit_args, unit_key,
    units_in, units_in_all,
};
use crate::text::{find_of, is_space, lines_of, texts, words_of};
use crate::text_laws::{
    blank, law_lines_are_those_of_the_text, law_prefix_is_stripped, law_search_gives_the_first,
    law_split_at_the_first, law_trim_start_takes_the_set, law_trim_takes_the_ends,
    law_words_stand_between_space, only, solid, stands_at,
};
use crate::watchdog::WatchdogError;
use vstd::prelude::*;

verus! {

/// The answer to a query for the failed state is yes exactly if the one word
/// `failed` was printed, with any white space around it and whatever the exit
/// code was; every other state is no.
pub proof fn law_failed_is_the_one_word(
    unit: Seq<char>,
    out: CommandOutcome,
    r: Result<bool, WatchdogError>,
    pre: Seq<char>,
    word: Seq<char>,
    post: Seq<char>,
)
    requires
        is_failed_answer(unit, out, r),
        blank(pre),
        blank(post),
        word.len() > 0 ==> !is_space(word[0]) && !is_space(word.last()),
        out matches CommandOutcome::Done { success, code, stdout } && stdout@ == pre + word + post,
    ensures
        r == Ok::<bool, WatchdogError>(word == "failed"@),
        word == "active"@ || word == "inactive"@ || word == "activating"@ || word
            == "deactivating"@ || word == "reloading"@ || word == "unknown"@ || word.len() == 0
            ==> r == Ok::<bool, WatchdogError>(false),
{
    law_trim_takes_the_ends(pre, word, post);
    reveal_strlit("failed");
    reveal_strlit("active");
    reveal_strlit("inactive");
    reveal_strlit("activating");
    reveal_strlit("deactivating");
    reveal_strlit("reloading");
    reveal_strlit("unknown");
    assert("failed"@[0] == 'f');
    assert("failed"@.len() == 6);
    assert("active"@[0] == 'a');
}

/// A query that could not be run is no answer: the error names the query, the unit
/// and what went wrong.
pub proof fn law_query_that_did_not_run_is_an_error(
    unit: Seq<char>,
    e: String,
    r: Result<bool, WatchdogError>,
)
    requires
        is_failed_answer(unit, CommandOutcome::NotRun(e), r),
    ensures
        match r {
            Err(WatchdogError::SystemctlFailed { op, unit: of, detail }) => op@ == "is-failed"@
                && of@ == unit && detail@ == e@,
            _ => false,
        },
{
}

/// A command for a unit succeeds exactly if it ran and exited well; otherwise the
/// error names the verb, the unit, and the exit code or why it did not run.
pub proof fn law_command_error_names_verb_and_unit(
    verb: Seq<char>,
    unit: Seq<char>,
    out: CommandOutcome,
    r: Result<(), WatchdogError>,
)
    requires
        is_command_result(unit_args(verb, unit), out, r),
    ensures
        unit_args(verb, unit) == seq!["--user"@, verb, unit],
        match out {
            CommandOutcome::Done { success, code, stdout } => r is Ok <==> success,
            CommandOutcome::NotRun(e) => r is Err,
        },
        r matches Err(f) ==> match f {
            WatchdogError::SystemctlFailed { op, unit: of, detail } => op@ == verb && of@ == unit
                && match out {
                CommandOutcome::NotRun(e) => detail@ == e@,
                CommandOutcome::Done { success, code: Some(c), stdout } => detail@
                    == "exit code Some("@ + signed_of(c as int) + ")"@,
                CommandOutcome::Done { success, code: None, stdout } => detail@
                    == "exit code None"@,
            },
            _ => false,
        },
{
}

/// Both listings ask the user's manager for failed units, in the same words; one
/// of them asks for them as JSON.
pub proof fn law_listings_ask_for_failed_units()
    ensures
        list_text_args() == seq!["--user"@, "--state=failed"@, "--no-legend"@, "--plain"@],
        list_json_args() == list_text_args() + seq!["-o"@, "json"@],
{
    assert(list_json_args() == list_text_args() + seq!["-o"@, "json"@]);
}

// ---------------------------------------------------------------------------
// The listing as text
// ---------------------------------------------------------------------------

/// The first words of a line and of more lines.
proof fn lemma_first_words(line: Seq<char>, ls: Seq<Seq<char>>)
    ensures
        first_words(seq![line] + ls) == first_words(seq![line]) + first_words(ls),
        first_words(seq![line]) == if words_of(line).len() > 0 {
            seq![words_of(line)[0]]
        } else {
            Seq::<Seq<char>>::empty()
        },
    decreases ls.len(),
{
    let one = seq![line];
    assert(one.drop_last() == Seq::<Seq<char>>::empty());
    assert(first_words(one.drop_last()) == Seq::<Seq<char>>::empty());
    assert(first_words(one) == if words_of(line).len() > 0 {
        seq![words_of(line)[0]]
    } else {
        Seq::<Seq<char>>::empty()
    });
    if ls.len() == 0 {
        assert(one + ls == one);
    } else {
        lemma_first_words(line, ls.drop_last());
        assert((one + ls).drop_last() == one + ls.drop_last());
        assert((one + ls).last() == ls.last());
    }
}

/// The text listing gives the first word of every line that has one, in the order
/// of the lines, and nothing else.
pub proof fn law_text_listing_gives_first_words(
    pre: Seq<char>,
    word: Seq<char>,
    post: Seq<char>,
    rest: Seq<char>,
)
    requires
        blank(pre),
        solid(word),
        word.len() > 0,
        post.len() > 0 ==> is_space(post[0]) && post.last() != '\r',
        word.last() != '\r',
        !(pre + word + post).contains('\n'),
        !pre.contains('\n'),
        pre.len() > 0 ==> pre.last() != '\r',
    ensures
        first_words(lines_of((pre + word + post).push('\n') + rest)) == seq![word] + first_words(
            lines_of(rest),
        ),
        first_words(lines_of(pre + word + post)) == seq![word],
        first_words(lines_of(pre.push('\n') + rest)) == first_words(lines_of(rest)),
        first_words(lines_of(Seq::empty())) == Seq::<Seq<char>>::empty(),
{
    let line = pre + word + post;
    law_words_stand_between_space(pre, word, post);
    law_lines_are_those_of_the_text(line, rest);
    law_lines_are_those_of_the_text(pre, rest);
    lemma_first_words(line, lines_of(rest));
    lemma_first_words(pre, lines_of(rest));
    assert(line.last() == if post.len() > 0 {
        post.last()
    } else {
        word.last()
    });
    assert(first_words(seq![pre]) + first_words(lines_of(rest)) == first_words(lines_of(rest)));
}

/// A text listing that ran and exited well gives the names it found, all and in
/// order; otherwise it is an error that says why.
pub proof fn law_text_listing_succeeds_with_the_command(
    out: CommandOutcome,
    r: Result<Vec<String>, WatchdogError>,
)
    requires
        is_text_listing(out, r),
    ensures
        match out {
            CommandOutcome::Done { success, code, stdout } => if success {
                r matches Ok(v) && texts(v@) == first_words(lines_of(stdout@))
            } else {
                match r {
                    Err(WatchdogError::SystemctlFailed { op, unit, detail }) => op@
                        == "list-units"@ && unit@.len() == 0 && detail@ == exit_detail_of(code),
                    _ => false,
                }
            },
            CommandOutcome::NotRun(e) => match r {
                Err(WatchdogError::SystemctlFailed { op, unit, detail }) => op@ == "list-units"@
                    && unit@.len() == 0 && detail@ == e@,
                _ => false,
            },
        },
{
}

// ---------------------------------------------------------------------------
// The listing as JSON
// ---------------------------------------------------------------------------

/// A quoted value is what stands between the first two quotes behind the key,
/// with nothing but spaces, tabs and colons before them.
proof fn lemma_quoted(gap: Seq<char>, name: Seq<char>, rest: Seq<char>)
    requires
        only(gap, seq![' ', '\t', ':']),
        !name.contains('"'),
    ensures
        quoted_value(gap + "\""@ + name + "\""@ + rest) == Some(name),
{
    reveal_strlit("\"");
    let set = seq![' ', '\t', ':'];
    let s = gap + "\""@ + name + "\""@ + rest;
    let tail = "\""@ + (name.push('"') + rest);
    assert(s == gap + tail);
    assert(tail[0] == '"');
    assert(!set.contains('"')) by {
        assert(set[0] == ' ' && set[1] == '\t' && set[2] == ':');
    }
    law_trim_start_takes_the_set(gap, tail, set);
    law_prefix_is_stripped("\""@, name.push('"') + rest, tail);
    law_split_at_the_first(name, rest, '"');
}

/// A key is passed over where no quoted value follows it: where something else than
/// spaces, tabs and colons stands before the quote, or the value does not end.
pub proof fn law_key_without_a_quoted_value_is_passed_over(
    line: Seq<char>,
    gap: Seq<char>,
    tail: Seq<char>,
    open: Seq<char>,
)
    requires
        only(gap, seq![' ', '\t', ':']),
        tail.len() > 0 ==> tail[0] != ' ' && tail[0] != '\t' && tail[0] != ':' && tail[0] != '"',
        !open.contains('"'),
    ensures
        quoted_value(gap + tail) is None,
        quoted_value(gap + "\""@ + open) is None,
        forall|k: nat|
            find_of(line, "\"unit\""@) == Some(k) && quoted_value(
                #[trigger] line.skip(k as int + 6),
            ) is None
                ==> units_in(line) == units_in(line.skip(k as int + 6)),
{
    reveal_strlit("\"");
    reveal_strlit("\"unit\"");
    let set = seq![' ', '\t', ':'];
    assert(set[0] == ' ' && set[1] == '\t' && set[2] == ':');
    law_trim_start_takes_the_set(gap, tail, set);
    if "\""@.is_prefix_of(tail) {
        assert(tail.subrange(0, 1)[0] == tail[0]);
    }
    let rest = "\""@ + open;
    assert(gap + "\""@ + open == gap + rest);
    assert(rest[0] == '"');
    law_trim_start_takes_the_set(gap, rest, set);
    law_prefix_is_stripped("\""@, open, rest);
    law_split_at_the_first(open, open, '"');
    law_search_gives_the_first(line, "\"unit\""@);
}

/// An error names the second argument of a command, which is the verb behind the
/// manager's flag, and the last, which is what it was about; a lone argument is
/// both.
pub proof fn law_error_names_verb_and_operand(args: Seq<Seq<char>>, one: Seq<char>)
    requires
        args.len() >= 2,
    ensures
        operation_of(args) == args[1],
        operand_of(args) == args[args.len() - 1],
        operation_of(seq![one]) == one,
        operand_of(seq![one]) == one,
        operation_of(Seq::empty()).len() == 0,
        operand_of(Seq::empty()).len() == 0,
{
}

/// The JSON listing gives, for the first key `"unit"` of a line, the quoted value
/// behind it, and goes on behind that key; a line without the key gives nothing.
pub proof fn law_json_listing_gives_unit_values(
    head: Seq<char>,
    gap: Seq<char>,
    name: Seq<char>,
    rest: Seq<char>,
    bare: Seq<char>,
)
    requires
        only(gap, seq![' ', '\t', ':']),
        !name.contains('"'),
        forall|i: int|
            0 <= i < head.len() ==> !#[trigger] stands_at(
                head + "\"unit\""@ + (gap + "\""@ + name + "\""@ + rest),
                "\"unit\""@,
                i,
            ),
        forall|i: int| !#[trigger] stands_at(bare, "\"unit\""@, i),
    ensures
        units_in(head + "\"unit\""@ + (gap + "\""@ + name + "\""@ + rest)) == seq![name] + units_in(
            gap + "\""@ + name + "\""@ + rest,
        ),
        units_in(bare) == Seq::<Seq<char>>::empty(),
{
    let tail = gap + "\""@ + name + "\""@ + rest;
    lemma_first_key(head, "\"unit\""@, tail);
    lemma_quoted(gap, name, rest);
    lemma_units_behind(head, tail, name);
    law_search_gives_the_first(bare, "\"unit\""@);
    if find_of(bare, "\"unit\""@) is Some {
        assert(stands_at(bare, "\"unit\""@, find_of(bare, "\"unit\""@)->0 as int));
    }
}

/// Where a key is found first.
proof fn lemma_first_key(head: Seq<char>, key: Seq<char>, tail: Seq<char>)
    requires
        forall|i: int| 0 <= i < head.len() ==> !#[trigger] stands_at(head + key + tail, key, i),
    ensures
        find_of(head + key + tail, key) == Some(head.len()),
        (head + key + tail).skip((head.len() + key.len()) as int) == tail,
{
    let line = head + key + tail;
    assert(stands_at(line, key, head.len() as int)) by {
        assert(line.subrange(head.len() as int, head.len() as int + key.len()) == key);
    }
    lemma_found_first(line, key, head.len());
    assert(line.skip((head.len() + key.len()) as int) == tail);
}

/// A search finds the first place.
proof fn lemma_found_first(s: Seq<char>, key: Seq<char>, k: nat)
    requires
        stands_at(s, key, k as int),
        forall|i: int| 0 <= i < k ==> !#[trigger] stands_at(s, key, i),
    ensures
        find_of(s, key) == Some(k),
{
    law_search_gives_the_first(s, key);
}

/// The units of a line, given where its first key is and what follows it.
proof fn lemma_units_behind(head: Seq<char>, tail: Seq<char>, name: Seq<char>)
    requires
        find_of(head + "\"unit\""@ + tail, "\"unit\""@) == Some(head.len()),
        (head + "\"unit\""@ + tail).skip((head.len() + "\"unit\""@.len()) as int) == tail,
        quoted_value(tail) == Some(name),
    ensures
        units_in(head + "\"unit\""@ + tail) == seq![name] + units_in(tail),
{
    assert(unit_key().len() > 0) by {
        reveal_strlit("\"unit\"");
    }
}

/// The units of a line and of more lines.
proof fn lemma_units_in_all(line: Seq<char>, ls: Seq<Seq<char>>)
    ensures
        units_in_all(seq![line] + ls) == units_in(line) + units_in_all(ls),
    decreases ls.len(),
{
    let all = seq![line] + ls;
    if ls.len() == 0 {
        assert(all == seq![line]);
        assert(all.drop_last() == Seq::<Seq<char>>::empty());
        assert(units_in_all(all.drop_last()) == Seq::<Seq<char>>::empty());
        assert(units_in_all(all) == units_in(line) + units_in_all(ls));
    } else {
        lemma_units_in_all(line, ls.drop_last());
        assert(all.drop_last() == seq![line] + ls.drop_last());
        assert(all.last() == ls.last());
        assert(units_in_all(all) == units_in(line) + units_in_all(ls));
    }
}

/// The JSON listing of a text is that of its lines, one behind the other.
pub proof fn law_json_listing_goes_line_by_line(line: Seq<char>, rest: Seq<char>)
    requires
        !line.contains('\n'),
        line.len() > 0 ==> line.last() != '\r',
    ensures
        units_in_all(lines_of(line.push('\n') + rest)) == units_in(line) + units_in_all(
            lines_of(rest),
        ),
        line.len() > 0 ==> units_in_all(lines_of(line)) == units_in(line),
        units_in_all(lines_of(Seq::empty())) == Seq::<Seq<char>>::empty(),
{
    law_lines_are_those_of_the_text(line, rest);
    lemma_units_in_all(line, lines_of(rest));
    lemma_units_in_all(line, Seq::empty());
    assert(seq![line] + Seq::<Seq<char>>::empty() == seq![line]);
    assert(units_in(line) + Seq::<Seq<char>>::empty() == units_in(line));
}

/// The JSON listing answers exactly if the command could not be run, which is an
/// error, or if it exited well and named some unit; otherwise the text listing is
/// asked.
pub proof fn law_json_listing_answers_or_passes_on(
    out: CommandOutcome,
    r: Option<Result<Vec<String>, WatchdogError>>,
)
    requires
        is_json_listing(out, r),
    ensures
        match out {
            CommandOutcome::NotRun(e) => match r {
                Some(Err(WatchdogError::SystemctlFailed { op, unit, detail })) => op@
                    == "list-units"@ && unit@.len() == 0 && detail@ == e@,
                _ => false,
            },
            CommandOutcome::Done { success, code, stdout } => match r {
                Some(Ok(v)) => success && v@.len() > 0 && texts(v@) == units_in_all(
                    lines_of(stdout@),
                ),
                Some(Err(_)) => false,
                None => !success || units_in_all(lines_of(stdout@)).len() == 0,
            },
        },
{
    if let Some(Ok(v)) = r {
        assert(texts(v@).len() == v@.len());
    }
}

} // verus!
