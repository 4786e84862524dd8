//! Laws of the failure log: which errno is known of a failed transaction.

use crate::errors::{
    absorbed, after_ret, failed_entry, first_word, law_absorbed_keeps, law_absorbed_shows,
    law_failed_entry_round_trip, param_of, parse_failed_tx_entry, FailedTxLog,
};
use crate::text::{
    decimal, find_from, first_behind, is_white, lemma_find_first, lemma_run_end, lines, occurs_at,
    parse_i32, run_end, signed_decimal, trim, CharClass,
};
use vstd::prelude::*;

verus! {

/// The line that the kernel writes for a failed transaction.
pub open spec fn kernel_line(
    id: i32,
    call: Seq<char>,
    code: u32,
    errno: i32,
    tail: Seq<char>,
) -> Seq<char> {
    signed_decimal(id as int) + ":"@ + (call + " ret "@ + (decimal(code as nat) + "/"@
        + signed_decimal(errno as int) + tail))
}

/// Every line that the kernel writes for a failed transaction gives its id and its errno,
/// whatever the call, the return code and what follows are.
pub proof fn law_kernel_line_is_read(
    line: &str,
    id: i32,
    call: Seq<char>,
    code: u32,
    errno: i32,
    tail: Seq<char>,
    r: Option<(i32, i32)>,
)
    requires
        call_ensures(parse_failed_tx_entry, (line,), r),
        first_behind(call, " ret "@),
        tail.len() > 0 ==> is_white(tail[0]),
        line@ == kernel_line(id, call, code, errno, tail),
    ensures
        r == Some((id, errno)),
{
    law_failed_entry_round_trip(id, call, code, errno, tail);
}

/// A line without a colon, or without a return, is none of a failed transaction.
pub proof fn law_other_lines_are_passed_over(line: &str, r: Option<(i32, i32)>)
    requires
        call_ensures(parse_failed_tx_entry, (line,), r),
        (forall|j: int| !occurs_at(line@, ":"@, j)) || (forall|j: int|
            !occurs_at(line@, " ret "@, j)),
    ensures
        r is None,
{
    let s = line@;
    lemma_find_first(s, ":"@, 0);
    match find_from(s, ":"@, 0) {
        Some(c) => {
            reveal_strlit(":");
            let rest = s.skip(c + 1);
            lemma_find_first(rest, " ret "@, 0);
            match find_from(rest, " ret "@, 0) {
                Some(k) => {
                    let n = " ret "@.len();
                    assert(s.subrange(c + 1 + k, c + 1 + k + n) =~= rest.subrange(k, k + n));
                    assert(occurs_at(s, " ret "@, c + 1 + k));
                },
                None => {},
            }
        },
        None => {},
    }
}

/// What a read of the log shows is known after it, by the last line that names the
/// transaction; what was known before stays known, unless the cache had grown past its cap.
pub proof fn law_log_is_remembered(
    log: &mut FailedTxLog,
    content: &str,
    k: int,
    id: i32,
    errno: i32,
    other: i32,
)
    requires
        call_ensures(FailedTxLog::absorb, (log, content), ()),
        0 <= k < lines(content@).len(),
        failed_entry(lines(content@)[k]) == Some((id, errno)),
        forall|j: int|
            k < j < lines(content@).len() ==> match failed_entry(#[trigger] lines(content@)[j]) {
                Some((named, _)) => named != id,
                None => true,
            },
    ensures
        final(log).known().contains_key(id),
        final(log).known()[id] == errno,
        old(log).known().len() <= 16384 && old(log).known().contains_key(other)
            ==> final(log).known().contains_key(other),
{
    let before = if old(log).known().len() > 16384 {
        Map::empty()
    } else {
        old(log).known()
    };
    law_absorbed_shows(before, lines(content@), k, id, errno);
    if before.contains_key(other) {
        law_absorbed_keeps(before, lines(content@), other);
    }
}

proof fn lemma_unnamed(cache: Map<i32, i32>, content: Seq<Seq<char>>, id: i32)
    requires
        forall|j: int|
            0 <= j < content.len() ==> match failed_entry(#[trigger] content[j]) {
                Some((named, _)) => named != id,
                None => true,
            },
    ensures
        absorbed(cache, content).contains_key(id) == cache.contains_key(id),
        cache.contains_key(id) ==> absorbed(cache, content)[id] == cache[id],
    decreases content.len(),
{
    if content.len() > 0 {
        let front = content.drop_last();
        assert forall|j: int| 0 <= j < front.len() implies match failed_entry(
            #[trigger] front[j],
        ) {
            Some((named, _)) => named != id,
            None => true,
        } by {
            assert(front[j] == content[j]);
        }
        lemma_unnamed(cache, front, id);
        assert(content.last() == content[content.len() - 1]);
    }
}

/// What a read of the log does not name is known as before, and forgotten where the cache
/// had grown past its cap.
pub proof fn law_unnamed_is_kept(log: &mut FailedTxLog, content: &str, id: i32)
    requires
        call_ensures(FailedTxLog::absorb, (log, content), ()),
        forall|j: int|
            0 <= j < lines(content@).len() ==> match failed_entry(#[trigger] lines(content@)[j]) {
                Some((named, _)) => named != id,
                None => true,
            },
    ensures
        old(log).known().len() <= 16384 ==> final(log).known().contains_key(id)
            == old(log).known().contains_key(id),
        old(log).known().len() <= 16384 && old(log).known().contains_key(id)
            ==> final(log).known()[id] == old(log).known()[id],
        old(log).known().len() > 16384 ==> !final(log).known().contains_key(id),
{
    let before = if old(log).known().len() > 16384 {
        Map::empty()
    } else {
        old(log).known()
    };
    lemma_unnamed(before, lines(content@), id);
}

/// The errno that is known of a transaction is the answer, whatever the log shows by then,
/// and nothing changes. Of any other the log is read, and the answer is the last errno that
/// it shows for the transaction; there is none where it shows none, or cannot be read.
pub proof fn law_errno_is_found(
    log: &mut FailedTxLog,
    id: i32,
    content: Option<&str>,
    k: int,
    errno: i32,
    r: Option<i32>,
)
    requires
        call_ensures(FailedTxLog::errno_for, (log, id, content), r),
    ensures
        old(log).known().contains_key(id) ==> r == Some(old(log).known()[id])
            && final(log).known() == old(log).known(),
        !old(log).known().contains_key(id) && content is None ==> r is None && final(log).known()
            == old(log).known(),
        !old(log).known().contains_key(id) ==> (content matches Some(text) ==> {
            let shown = lines(text@);
            &&& 0 <= k < shown.len() && failed_entry(shown[k]) == Some((id, errno)) && (forall|
                j: int,
            |
                k < j < shown.len() ==> match failed_entry(#[trigger] shown[j]) {
                    Some((named, _)) => named != id,
                    None => true,
                }) ==> r == Some(errno)
            &&& (forall|j: int|
                0 <= j < shown.len() ==> match failed_entry(#[trigger] shown[j]) {
                    Some((named, _)) => named != id,
                    None => true,
                }) ==> r is None
        }),
{
    if !old(log).known().contains_key(id) && content is Some {
        let shown = lines(content->0@);
        let before = if old(log).known().len() > 16384 {
            Map::empty()
        } else {
            old(log).known()
        };
        if 0 <= k < shown.len() && failed_entry(shown[k]) == Some((id, errno)) && (forall|j: int|
            k < j < shown.len() ==> match failed_entry(#[trigger] shown[j]) {
                Some((named, _)) => named != id,
                None => true,
            }) {
            law_absorbed_shows(before, shown, k, id, errno);
        }
        if forall|j: int|
            0 <= j < shown.len() ==> match failed_entry(#[trigger] shown[j]) {
                Some((named, _)) => named != id,
                None => true,
            } {
            lemma_unnamed(before, shown, id);
        }
    }
}

/// The log is looked for in binderfs first, and in debugfs where that has none.
pub proof fn law_log_is_where_the_kernel_keeps_it(
    binderfs: bool,
    debugfs: bool,
    r: Option<&'static str>,
)
    requires
        call_ensures(FailedTxLog::resolve, (binderfs, debugfs), r),
    ensures
        binderfs ==> r is Some && r->0@ == "/dev/binderfs/binder_logs/failed_transaction_log"@,
        !binderfs && debugfs ==> r is Some && r->0@
            == "/sys/kernel/debug/binder/failed_transaction_log"@,
        !binderfs && !debugfs ==> r is None,
{
}

/// The parts of a line of the failure log.
pub struct EntryParts {
    /// What stands before the first colon.
    pub id: Seq<char>,
    /// What stands from there to the first ` ret `.
    pub call: Seq<char>,
    /// The white space behind that.
    pub blanks: Seq<char>,
    /// The word that follows, up to its slash.
    pub code: Seq<char>,
    /// The word behind its slash.
    pub errno: Seq<char>,
    /// What follows the word.
    pub rest: Seq<char>,
}

/// What is read from a line stands in it: the id before the first colon, and the errno
/// behind the slash of the word that follows the first ` ret `.
pub proof fn law_entry_stands_in_its_line(line: &str, id: i32, errno: i32, r: Option<(i32, i32)>)
    -> (p: EntryParts)
    requires
        call_ensures(parse_failed_tx_entry, (line,), r),
        r == Some((id, errno)),
    ensures
        line@ == p.id + ":"@ + (p.call + " ret "@ + (p.blanks + (p.code + "/"@ + p.errno)
            + p.rest)),
        parse_i32(trim(p.id)) == Some(id),
        parse_i32(p.errno) == Some(errno),
        !p.id.contains(':'),
        forall|i: int| 0 <= i < p.blanks.len() ==> is_white(#[trigger] p.blanks[i]),
        !p.code.contains('/'),
        forall|i: int| 0 <= i < p.errno.len() ==> !is_white(#[trigger] p.errno[i]),
{
    reveal_strlit(":");
    reveal_strlit(" ret ");
    let s = line@;
    assert(":"@ =~= seq![':']);
    lemma_find_first(s, ":"@, 0);
    let c = find_from(s, ":"@, 0)->0;
    lemma_char_before(s, ":"@, ':', c);
    lemma_split_at(s, ":"@, c);
    let behind = s.skip(c + 1);
    lemma_find_first(behind, " ret "@, 0);
    let k = find_from(behind, " ret "@, 0)->0;
    lemma_split_at(behind, " ret "@, k);
    let after = behind.skip(k + 5);
    lemma_find_first(after, " ret "@, 0);
    let read = after_ret(behind)->0;
    let more = after.skip(read.len() as int);
    assert(after =~= read + more);
    let (blanks, code, param, rest) = lemma_errno_in(read, errno);
    lemma_join(blanks, code + "/"@ + param, rest, more);
    let id = s.take(c);
    let call = behind.take(k);
    EntryParts { id, call, blanks, code, errno: param, rest: rest + more }
}

proof fn lemma_join(a: Seq<char>, b: Seq<char>, c: Seq<char>, d: Seq<char>)
    ensures
        a + b + c + d == a + b + (c + d),
{
    assert(a + b + c + d =~= a + b + (c + d));
}

/// The errno that is read from a text stands in its first word, behind the slash.
proof fn lemma_errno_in(read: Seq<char>, errno: i32) -> (p: (
    Seq<char>,
    Seq<char>,
    Seq<char>,
    Seq<char>,
))
    requires
        param_of(first_word(read)) == Some(errno),
    ensures
        read == p.0 + (p.1 + "/"@ + p.2) + p.3,
        parse_i32(p.2) == Some(errno),
        forall|i: int| 0 <= i < p.0.len() ==> is_white(#[trigger] p.0[i]),
        !p.1.contains('/'),
        forall|i: int| 0 <= i < p.2.len() ==> !is_white(#[trigger] p.2[i]),
{
    reveal_strlit("/");
    assert("/"@ =~= seq!['/']);
    let white = CharClass::White;
    let solid = CharClass::Solid;
    lemma_run_end(read, white, 0);
    let from = run_end(read, white, 0);
    lemma_run_end(read, solid, from);
    let to = run_end(read, solid, from);
    let word = read.subrange(from, to);
    let blanks = read.take(from);
    assert(read =~= blanks + word + read.skip(to));
    lemma_find_first(word, "/"@, 0);
    let slash = find_from(word, "/"@, 0)->0;
    lemma_char_before(word, "/"@, '/', slash);
    lemma_split_at(word, "/"@, slash);
    let param = word.skip(slash + 1);
    assert forall|i: int| 0 <= i < param.len() implies !is_white(#[trigger] param[i]) by {
        assert(param[i] == read[from + slash + 1 + i]);
        assert(solid.holds(read[from + slash + 1 + i]));
    }
    assert forall|i: int| 0 <= i < blanks.len() implies is_white(#[trigger] blanks[i]) by {
        assert(white.holds(read[i]));
    }
    (blanks, word.take(slash), param, read.skip(to))
}

proof fn lemma_split_at(s: Seq<char>, pat: Seq<char>, i: int)
    requires
        occurs_at(s, pat, i),
    ensures
        s == s.take(i) + pat + s.skip(i + pat.len()),
{
    assert(s =~= s.take(i) + s.subrange(i, i + pat.len()) + s.skip(i + pat.len()));
}

proof fn lemma_char_before(s: Seq<char>, pat: Seq<char>, c: char, i: int)
    requires
        pat == seq![c],
        occurs_at(s, pat, i),
        forall|j: int| 0 <= j < i ==> !occurs_at(s, pat, j),
    ensures
        !s.take(i).contains(c),
{
    let t = s.take(i);
    assert forall|j: int| 0 <= j < t.len() implies t[j] != c by {
        if t[j] == c {
            assert(s.subrange(j, j + 1) =~= pat);
            assert(occurs_at(s, pat, j));
        }
    }
}

/// What is known of a transaction is the answer without a look at the log.
pub proof fn law_known_errno_is_told(log: &FailedTxLog, id: i32, r: Option<i32>)
    requires
        call_ensures(FailedTxLog::cached, (log, id), r),
    ensures
        log.known().contains_key(id) ==> r == Some(log.known()[id]),
        !log.known().contains_key(id) ==> r is None,
{
}

} // verus!
