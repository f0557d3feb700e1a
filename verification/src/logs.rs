//! The tail of a child's log.

use crate::files::{
    child_log_path_of, child_log_path_with, may_read, reads, FileRead, FileReadModel,
};
use crate::text::{lines, lines_of, str_opt, texts, trim_end_matches, trim_end_of};
use vstd::prelude::*;

verus! {

/// The last `n` elements of `v`, or all of them where there are fewer.
pub open spec fn last_of<T>(v: Seq<T>, n: nat) -> Seq<T> {
    if v.len() > n {
        v.skip(v.len() - n)
    } else {
        v
    }
}

/// A line without the carriage returns at its end.
pub open spec fn bare_line(line: Seq<char>) -> Seq<char> {
    trim_end_of(line, seq!['\r'])
}

/// The lines of a log, without the carriage returns at their ends.
pub open spec fn log_lines(text: Seq<char>) -> Seq<Seq<char>> {
    lines_of(text).map_values(|line: Seq<char>| bare_line(line))
}

/// The last `tail` lines of what reading a log gave. A log that does not exist
/// has no lines; one that could not be read is an error.
pub open spec fn tail_of(read: FileReadModel, tail: nat) -> Result<Seq<Seq<char>>, Seq<char>> {
    match read {
        FileReadModel::Text(text) => Ok(last_of(log_lines(text), tail)),
        FileReadModel::NotFound => Ok(Seq::empty()),
        FileReadModel::Failed(e) => Err(e),
    }
}

/// The lines or the error of a tail, as text.
pub open spec fn tail_view(r: Result<Vec<String>, String>) -> Result<Seq<Seq<char>>, Seq<char>> {
    match r {
        Ok(v) => Ok(texts(v@)),
        Err(e) => Err(e@),
    }
}

/// The last `tail` lines of a log, given what reading it gave.
pub fn tail_log(read: FileRead, tail: usize) -> (r: Result<Vec<String>, String>)
    ensures
        tail_view(r) == tail_of(read@, tail as nat),
{
    match read {
        FileRead::Text(text) => {
            let all = lines(text.as_str());
            let n: usize = all.len();
            let from: usize = if n > tail {
                n - tail
            } else {
                0
            };
            let ghost t = log_lines(text@);
            let ends = ['\r'];
            assert(ends@ == seq!['\r']);
            let mut out: Vec<String> = Vec::new();
            let mut i: usize = from;
            while i < n
                invariant
                    from <= i <= n == all.len(),
                    texts(all@) == lines_of(text@),
                    t == log_lines(text@),
                    ends@ == seq!['\r'],
                    texts(out@) == t.subrange(from as int, i as int),
                decreases n - i,
            {
                let ghost before = out@;
                let line = trim_end_matches(all[i].as_str(), &ends);
                assert(texts(all@)[i as int] == all@[i as int]@);
                assert(line@ == t[i as int]);
                out.push(line);
                assert(texts(out@) == texts(before).push(t[i as int]));
                assert(t.subrange(from as int, i + 1) == t.subrange(from as int, i as int).push(
                    t[i as int],
                ));
                i += 1;
            }
            assert(texts(all@).len() == n);
            assert(texts(out@) == last_of(t, tail as nat));
            Ok(out)
        },
        FileRead::NotFound => {
            let out: Vec<String> = Vec::new();
            assert(texts(out@) == Seq::<Seq<char>>::empty());
            Ok(out)
        },
        FileRead::Failed(e) => Err(e),
    }
}

/// The last `tail` lines of the log of `child` under the home directory
/// `home`, oldest first and without line ends, read through `read`.
pub fn tail_child_log_with<R: Fn(&str) -> FileRead>(
    home: Option<&str>,
    child: &str,
    tail: usize,
    read: &R,
) -> (r: Result<Vec<String>, String>)
    requires
        may_read(*read, child_log_path_of(str_opt(home), child@)),
    ensures
        exists|got: FileRead|
            #[trigger] reads(*read, child_log_path_of(str_opt(home), child@), got) && tail_view(r)
                == tail_of(got@, tail as nat),
{
    let path = child_log_path_with(home, child);
    let p: &str = path.as_str();
    let got = read(p);
    assert(reads(*read, child_log_path_of(str_opt(home), child@), got));
    tail_log(got, tail)
}

/// The tail keeps the last lines in their order: it holds `n` lines or all of
/// them, and its line `i` counted from the end is that of the whole log. None of
/// them ends in a carriage return.
pub proof fn law_tail_is_the_end(text: Seq<char>, n: nat)
    ensures
        ({
            let all = log_lines(text);
            let t = tail_of(FileReadModel::Text(text), n)->Ok_0;
            &&& t.len() == if all.len() > n {
                n
            } else {
                all.len()
            }
            &&& forall|i: int|
                0 <= i < t.len() ==> #[trigger] t[t.len() - 1 - i] == all[all.len() - 1 - i]
            &&& forall|i: int|
                0 <= i < t.len() && (#[trigger] t[i]).len() > 0 ==> t[i].last() != '\r'
        }),
{
    let t = tail_of(FileReadModel::Text(text), n)->Ok_0;
    let all = log_lines(text);
    assert forall|i: int| 0 <= i < t.len() && (#[trigger] t[i]).len() > 0 implies t[i].last()
        != '\r' by {
        let k = i + (all.len() - t.len());
        assert(t[i] == all[k]);
        lemma_bare_line(lines_of(text)[k]);
    }
}

/// Each line of a tail is a line of the text itself, in its place, with nothing
/// but carriage returns taken from its end.
pub proof fn law_tail_lines_are_those_of_the_text(text: Seq<char>, n: nat, i: int) -> (cut: Seq<
    char,
>)
    requires
        0 <= i < lines_of(text).len(),
        i < n,
    ensures
        ({
            let all = lines_of(text);
            let t = tail_of(FileReadModel::Text(text), n)->Ok_0;
            &&& tail_of(FileReadModel::Text(text), n) is Ok
            &&& t.len() == if all.len() > n {
                n
            } else {
                all.len()
            }
            &&& all[all.len() - 1 - i] == t[t.len() - 1 - i] + cut
            &&& forall|j: int| 0 <= j < cut.len() ==> #[trigger] cut[j] == '\r'
            &&& t[t.len() - 1 - i].len() > 0 ==> t[t.len() - 1 - i].last() != '\r'
        }),
{
    let all = lines_of(text);
    let line = all[all.len() - 1 - i];
    let r = log_lines(text)[all.len() - 1 - i];
    lemma_bare_line(line);
    line.skip(r.len() as int)
}

/// A log that was not found has no tail, and what went wrong with one that could
/// not be read is passed on as it is.
pub proof fn law_unread_log_has_no_lines(e: Seq<char>, n: nat)
    ensures
        tail_of(FileReadModel::NotFound, n) == Ok::<Seq<Seq<char>>, Seq<char>>(Seq::empty()),
        tail_of(FileReadModel::Failed(e), n) == Err::<Seq<Seq<char>>, Seq<char>>(e),
{
}

/// A bare line is the line without the carriage returns at its end, and does not
/// end in one.
proof fn lemma_bare_line(line: Seq<char>)
    ensures
        bare_line(line).len() > 0 ==> bare_line(line).last() != '\r',
        bare_line(line).len() <= line.len(),
        line == bare_line(line) + line.skip(bare_line(line).len() as int),
        forall|j: int| bare_line(line).len() <= j < line.len() ==> #[trigger] line[j] == '\r',
    decreases line.len(),
{
    let set = seq!['\r'];
    assert(set[0] == '\r');
    if line.len() > 0 && set.contains(line.last()) {
        let l = line.drop_last();
        lemma_bare_line(l);
        assert forall|j: int| bare_line(line).len() <= j < line.len() implies #[trigger] line[j]
            == '\r' by {
            if j < l.len() {
                assert(l[j] == line[j]);
            }
        }
        assert(l.subrange(0, bare_line(l).len() as int) == bare_line(l)) by {
            assert forall|j: int| 0 <= j < bare_line(l).len() implies l[j] == bare_line(l)[j] by {
                assert((bare_line(l) + l.skip(bare_line(l).len() as int))[j] == l[j]);
            }
        }
        assert(line == bare_line(line) + line.skip(bare_line(line).len() as int));
    }
}

} // verus!
