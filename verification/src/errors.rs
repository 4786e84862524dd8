//! Failed transactions: return codes, causes and the kernel's failure log.

use crate::event::{BR_DEAD_REPLY, BR_FAILED_REPLY, BR_FROZEN_REPLY};
use crate::text::{
    chars_of, decimal, find, find_from, first_behind, is_digit, is_white,
    law_signed_decimal_round_trip, lemma_decimal, lemma_find_behind, lemma_find_first,
    lemma_first_char_absent, lemma_run_end_is, lemma_trim_keeps, lines, parse_i32, read_i32,
    run_end, scan_end, signed_decimal, strip_return, trim, trimmed, CharClass,
};
use std::collections::HashMap;
use vstd::prelude::*;
use vstd::slice::slice_subrange;

verus! {

broadcast use vstd::std_specs::hash::group_hash_axioms;

/// The name of a binder return `cmd` that is reported as an error.
pub open spec fn error_name(code: u32) -> Seq<char> {
    if code == BR_DEAD_REPLY {
        "BR_DEAD_REPLY"@
    } else if code == BR_FAILED_REPLY {
        "BR_FAILED_REPLY"@
    } else if code == BR_FROZEN_REPLY {
        "BR_FROZEN_REPLY"@
    } else {
        "BR_ERROR"@
    }
}

/// The human-readable name for a binder return `cmd` reported as an error.
pub fn br_error_name(code: u32) -> (r: &'static str)
    ensures
        r@ == error_name(code),
{
    if code == BR_DEAD_REPLY {
        "BR_DEAD_REPLY"
    } else if code == BR_FAILED_REPLY {
        "BR_FAILED_REPLY"
    } else if code == BR_FROZEN_REPLY {
        "BR_FROZEN_REPLY"
    } else {
        "BR_ERROR"
    }
}

/// The cause that a binder failure errno stands for.
pub open spec fn reason_of(errno: i32) -> Option<Seq<char>> {
    if errno == -28 {
        Some("target buffer full"@)
    } else if errno == -3 {
        Some("dead node"@)
    } else if errno == -22 {
        Some("invalid transaction"@)
    } else if errno == -1 {
        Some("operation not permitted"@)
    } else if errno == -13 {
        Some("permission denied"@)
    } else if errno == -9 {
        Some("bad file descriptor"@)
    } else if errno == -14 {
        Some("fault copying data"@)
    } else if errno == -12 {
        Some("out of memory"@)
    } else if errno == -11 {
        Some("would block"@)
    } else if errno == -110 {
        Some("timed out"@)
    } else {
        None
    }
}

/// Human-readable cause for a binder failure errno. Covers the causes seen in practice;
/// unknown codes return `None`.
pub fn errno_reason(errno: i32) -> (r: Option<&'static str>)
    ensures
        match (r, reason_of(errno)) {
            (Some(s), Some(v)) => s@ == v,
            (None, None) => true,
            _ => false,
        },
{
    match errno {
        -28 => Some("target buffer full"),  // ENOSPC
        -3 => Some("dead node"),  // ESRCH
        -22 => Some("invalid transaction"),  // EINVAL
        -1 => Some("operation not permitted"),  // EPERM
        -13 => Some("permission denied"),  // EACCES (often SELinux)
        -9 => Some("bad file descriptor"),  // EBADF
        -14 => Some("fault copying data"),  // EFAULT
        -12 => Some("out of memory"),  // ENOMEM
        -11 => Some("would block"),  // EAGAIN
        -110 => Some("timed out"),  // ETIMEDOUT
        _ => None,
    }
}

/// What stands behind the first ` ret ` in `rest`, up to the second.
pub open spec fn after_ret(rest: Seq<char>) -> Option<Seq<char>> {
    match find_from(rest, " ret "@, 0) {
        Some(k) => {
            let after = rest.skip(k + 5);
            match find_from(after, " ret "@, 0) {
                Some(m) => Some(after.take(m)),
                None => Some(after),
            }
        },
        None => None,
    }
}

/// The first word of `s`; empty where there is none.
pub open spec fn first_word(s: Seq<char>) -> Seq<char> {
    let from = run_end(s, CharClass::White, 0);
    s.subrange(from, run_end(s, CharClass::Solid, from))
}

/// The errno in the `<return_error>/<param>` that `word` is.
pub open spec fn param_of(word: Seq<char>) -> Option<i32> {
    match find_from(word, "/"@, 0) {
        Some(k) => parse_i32(word.skip(k + 1)),
        None => None,
    }
}

/// The transaction id and the errno that a line of the failure log gives.
pub open spec fn failed_entry(line: Seq<char>) -> Option<(i32, i32)> {
    match find_from(line, ":"@, 0) {
        Some(c) => match (parse_i32(trim(line.take(c))), after_ret(line.skip(c + 1))) {
            (Some(id), Some(after)) => match param_of(first_word(after)) {
                Some(errno) => Some((id, errno)),
                None => None,
            },
            _ => None,
        },
        None => None,
    }
}

/// Parses one kernel `failed_transaction_log` line into the transaction's id and its
/// errno. Each line is `<id>: call from A:B to C:D context <ctx> ... ret
/// <return_error>/<param> l=<line>`; the `param` after the slash is the concrete errno.
/// Returns `None` for lines that do not match (header lines, truncated entries).
pub fn parse_failed_tx_entry(line: &str) -> (r: Option<(i32, i32)>)
    ensures
        r == failed_entry(line@),
{
    proof {
        reveal_strlit(":");
        reveal_strlit(" ret ");
        reveal_strlit("/");
    }
    let c: Vec<char> = chars_of(line);
    let colon: usize = match find(&c, ":", 0) {
        Some(i) => i,
        None => {
            return None;
        },
    };
    let head: &[char] = slice_subrange(c.as_slice(), 0, colon);
    let rest: &[char] = slice_subrange(c.as_slice(), colon + 1, c.len());
    proof {
        assert(head@ =~= line@.take(colon as int));
        assert(rest@ =~= line@.skip(colon + 1));
    }
    let id: i32 = match read_i32(trimmed(head)) {
        Some(n) => n,
        None => {
            return None;
        },
    };
    let ret: usize = match find(rest, " ret ", 0) {
        Some(i) => i,
        None => {
            return None;
        },
    };
    let mut after: &[char] = slice_subrange(rest, ret + 5, rest.len());
    assert(after@ =~= rest@.skip(ret + 5));
    match find(after, " ret ", 0) {
        Some(m) => {
            let cut: &[char] = slice_subrange(after, 0, m);
            assert(cut@ =~= after@.take(m as int));
            after = cut;
        },
        None => {},
    }
    assert(after_ret(rest@) == Some(after@));
    let from: usize = scan_end(after, CharClass::White, 0);
    let to: usize = scan_end(after, CharClass::Solid, from);
    let word: &[char] = slice_subrange(after, from, to);
    let slash: usize = match find(word, "/", 0) {
        Some(i) => i,
        None => {
            return None;
        },
    };
    let param: &[char] = slice_subrange(word, slash + 1, word.len());
    assert(param@ =~= word@.skip(slash + 1));
    match read_i32(param) {
        Some(errno) => Some((id, errno)),
        None => None,
    }
}

/// The ids and errnos of the lines of a failure log, merged into `cache` in order.
pub open spec fn absorbed(cache: Map<i32, i32>, content: Seq<Seq<char>>) -> Map<i32, i32>
    decreases content.len(),
{
    if content.len() == 0 {
        cache
    } else {
        let before = absorbed(cache, content.drop_last());
        match failed_entry(content.last()) {
            Some((id, errno)) => before.insert(id, errno),
            None => before,
        }
    }
}

/// The failures that the kernel's binder `failed_transaction_log` has shown so far.
///
/// The kernel's log is a small ring. An entry can rotate out before its error event is
/// processed, so every read of the log is merged into this cache: a failure is
/// decodable as long as it was seen at some point.
pub struct FailedTxLog {
    cache: HashMap<i32, i32>,
}

impl FailedTxLog {
    /// A cache larger than this is emptied before the next read is merged into it.
    pub const CACHE_CAP: usize = 16384;

    /// Transaction id to errno, accumulated across reads.
    pub closed spec fn known(&self) -> Map<i32, i32> {
        self.cache@
    }

    /// A log of which nothing was read yet.
    pub fn new() -> (r: Self)
        ensures
            r.known() == Map::<i32, i32>::empty(),
    {
        FailedTxLog { cache: HashMap::new() }
    }

    /// Where the kernel keeps its log: the first of the places (binderfs, then legacy
    /// debugfs) that is there.
    pub fn resolve(binderfs: bool, debugfs: bool) -> (r: Option<&'static str>)
        ensures
            match r {
                Some(path) => if binderfs {
                    path@ == "/dev/binderfs/binder_logs/failed_transaction_log"@
                } else {
                    debugfs && path@ == "/sys/kernel/debug/binder/failed_transaction_log"@
                },
                None => !binderfs && !debugfs,
            },
    {
        if binderfs {
            Some("/dev/binderfs/binder_logs/failed_transaction_log")
        } else if debugfs {
            Some("/sys/kernel/debug/binder/failed_transaction_log")
        } else {
            None
        }
    }

    /// The errno recorded for `debug_id` in what was read so far.
    pub fn cached(&self, debug_id: i32) -> (r: Option<i32>)
        ensures
            match r {
                Some(errno) => self.known().contains_key(debug_id) && errno
                    == self.known()[debug_id],
                None => !self.known().contains_key(debug_id),
            },
    {
        match self.cache.get(&debug_id) {
            Some(errno) => Some(*errno),
            None => None,
        }
    }

    /// Merges a read of the log into the cache, emptied before where it had grown past
    /// [`FailedTxLog::CACHE_CAP`].
    pub fn absorb(&mut self, content: &str)
        ensures
            final(self).known() == absorbed(
                if old(self).known().len() > Self::CACHE_CAP {
                    Map::empty()
                } else {
                    old(self).known()
                },
                lines(content@),
            ),
    {
        if self.cache.len() > Self::CACHE_CAP {
            self.cache.clear();
        }
        let ghost base = self.known();
        let c: Vec<char> = chars_of(content);
        let mut from: usize = 0;
        let ghost all = lines(content@);
        let ghost mut n: int = 0;
        proof {
            reveal_strlit("\n");
            assert("\n"@ =~= seq!['\n']);
            assert(c@.skip(0) =~= c@);
            assert(all.skip(0) =~= all);
            assert(all.take(0) =~= Seq::<Seq<char>>::empty());
        }
        while from < c.len()
            invariant
                c@ == content@,
                "\n"@ == seq!['\n'],
                from <= c@.len(),
                all == lines(content@),
                0 <= n <= all.len(),
                all.skip(n) == lines(c@.skip(from as int)),
                self.known() == absorbed(base, all.take(n)),
            decreases c@.len() - from,
        {
            let ghost rest = c@.skip(from as int);
            let tail: &[char] = slice_subrange(c.as_slice(), from, c.len());
            assert(tail@ =~= rest);
            let (end, next): (usize, usize) = match find(tail, "\n", 0) {
                Some(i) => {
                    let end: usize = if i > 0 && tail[i - 1] == '\r' {
                        i - 1
                    } else {
                        i
                    };
                    proof {
                        assert(rest.take(i as int).len() == i);
                        assert(rest.take(end as int) =~= strip_return(rest.take(i as int)));
                        assert(lines(rest) == seq![strip_return(rest.take(i as int))] + lines(
                            rest.skip(i + 1),
                        ));
                        assert(rest.skip(i + 1) =~= c@.skip(from + i + 1));
                    }
                    (end, from + i + 1)
                },
                None => {
                    proof {
                        assert(lines(rest) == seq![rest]);
                        assert(rest.take(rest.len() as int) =~= rest);
                        assert(c@.skip(c@.len() as int) =~= Seq::<char>::empty());
                        assert(seq![rest] =~= seq![rest] + lines(c@.skip(c@.len() as int)));
                    }
                    (tail.len(), c.len())
                },
            };
            let text: &str = content.substring_char(from, from + end);
            proof {
                assert(text@ =~= rest.take(end as int));
                assert(lines(rest) == seq![text@] + lines(c@.skip(next as int)));
                assert(all.skip(n).len() >= 1);
                assert(all.skip(n)[0] == text@);
                assert(all[n] == text@);
                assert(all.take(n + 1).drop_last() =~= all.take(n));
                assert(all.skip(n + 1) =~= all.skip(n).skip(1));
                assert(all.skip(n).skip(1) =~= lines(c@.skip(next as int)));
            }
            match parse_failed_tx_entry(text) {
                Some((id, errno)) => {
                    self.cache.insert(id, errno);
                },
                None => {},
            }
            proof {
                n = n + 1;
            }
            from = next;
        }
        proof {
            assert(c@.skip(from as int) =~= Seq::<char>::empty());
            assert(all.skip(n).len() == 0);
            assert(all.take(n) =~= all);
        }
    }

    /// The errno (negative) that the kernel recorded for `debug_id`, given what a read
    /// of its log gave (`None` where the log could not be read). An id already in the
    /// cache is answered from it, whatever `content` is; else the read is merged into
    /// the cache first.
    pub fn errno_for(&mut self, debug_id: i32, content: Option<&str>) -> (r: Option<i32>)
        ensures
            final(self).known() == if old(self).known().contains_key(debug_id) || content is None {
                old(self).known()
            } else {
                absorbed(
                    if old(self).known().len() > Self::CACHE_CAP {
                        Map::empty()
                    } else {
                        old(self).known()
                    },
                    lines(content->0@),
                )
            },
            match r {
                Some(errno) => final(self).known().contains_key(debug_id) && errno == final(
                    self).known()[debug_id],
                None => !final(self).known().contains_key(debug_id),
            },
    {
        match self.cached(debug_id) {
            Some(errno) => Some(errno),
            None => {
                match content {
                    Some(text) => self.absorb(text),
                    None => {},
                }
                self.cached(debug_id)
            },
        }
    }
}

/// A number in decimal holds no character but digits and the sign, and no white space
/// at its ends.
proof fn lemma_signed_chars(n: i32)
    ensures
        signed_decimal(n as int).len() > 0,
        forall|i: int|
            0 <= i < signed_decimal(n as int).len() ==> {
                let c = #[trigger] signed_decimal(n as int)[i];
                is_digit(c) || c == '-'
            },
        trim(signed_decimal(n as int)) == signed_decimal(n as int),
{
    let s = signed_decimal(n as int);
    if n < 0 {
        lemma_decimal((-n) as nat);
        assert forall|i: int| 0 <= i < s.len() implies is_digit(#[trigger] s[i]) || s[i] == '-' by {
            if i > 0 {
                assert(s[i] == decimal((-n) as nat)[i - 1]);
            }
        }
    } else {
        lemma_decimal(n as nat);
    }
    assert(is_digit(s[0]) || s[0] == '-');
    assert(is_digit(s.last()) || s.last() == '-');
    lemma_trim_keeps(s);
}

/// The errno is read from the word `<code>/<errno>`.
proof fn lemma_param(code: u32, errno: i32)
    ensures
        param_of(decimal(code as nat) + "/"@ + signed_decimal(errno as int)) == Some(errno),
        forall|i: int|
            #![auto]
            0 <= i < (decimal(code as nat) + "/"@ + signed_decimal(errno as int)).len()
                ==> !is_white((decimal(code as nat) + "/"@ + signed_decimal(errno as int))[i]),
{
    reveal_strlit("/");
    let number = decimal(code as nat);
    let param = signed_decimal(errno as int);
    let word = number + "/"@ + param;
    lemma_signed_chars(errno);
    lemma_decimal(code as nat);
    law_signed_decimal_round_trip(errno);
    if number.contains('/') {
        let i = choose|i: int| 0 <= i < number.len() && number[i] == '/';
        assert(is_digit(number[i]));
    }
    lemma_first_char_absent(number, "/"@);
    lemma_find_behind(number, "/"@, param);
    assert forall|i: int| 0 <= i < word.len() implies !is_white(#[trigger] word[i]) by {
        if i < number.len() {
            assert(word[i] == number[i]);
            assert(is_digit(number[i]));
        } else if i > number.len() {
            assert(word[i] == param[i - number.len() - 1]);
        }
    }
}

/// The first word is whole where white space, or nothing, stands behind it, even where
/// what is read ends at a mark further on.
proof fn lemma_word_before_mark(word: Seq<char>, tail: Seq<char>)
    requires
        word.len() > 0,
        forall|i: int| 0 <= i < word.len() ==> !is_white(#[trigger] word[i]),
        tail.len() > 0 ==> is_white(tail[0]),
    ensures
        first_word(word + tail) == word,
        find_from(word + tail, " ret "@, 0) matches Some(m) ==> first_word((word + tail).take(m))
            == word,
{
    reveal_strlit(" ret ");
    let s = word + tail;
    let n = word.len() as int;
    lemma_find_first(s, " ret "@, 0);
    assert(s[0] == word[0]);
    assert(run_end(s, CharClass::White, 0) == 0);
    assert forall|j: int| 0 <= j < n implies CharClass::Solid.holds(s[j]) by {
        assert(s[j] == word[j]);
    }
    lemma_run_end_is(s, CharClass::Solid, 0, n);
    assert(first_word(s) =~= word);
    match find_from(s, " ret "@, 0) {
        Some(m) => {
            assert(s.subrange(m, m + 5)[0] == s[m]);
            assert(is_white(s[m]));
            if m < n {
                assert(s[m] == word[m]);
            }
            let cut = s.take(m);
            assert(cut[0] == word[0]);
            assert(run_end(cut, CharClass::White, 0) == 0);
            assert forall|j: int| 0 <= j < n implies CharClass::Solid.holds(cut[j]) by {
                assert(cut[j] == word[j]);
            }
            lemma_run_end_is(cut, CharClass::Solid, 0, n);
            assert(first_word(cut) =~= word);
        },
        None => {},
    }
}

/// The line that the kernel writes for a failed transaction gives its id and its errno
/// back, whatever stands between the id and the first ` ret `, and behind the errno.
pub proof fn law_failed_entry_round_trip(
    id: i32,
    call: Seq<char>,
    code: u32,
    errno: i32,
    tail: Seq<char>,
)
    requires
        first_behind(call, " ret "@),
        tail.len() > 0 ==> is_white(tail[0]),
    ensures
        failed_entry(
            signed_decimal(id as int) + ":"@ + (call + " ret "@ + (decimal(code as nat) + "/"@
                + signed_decimal(errno as int) + tail)),
        ) == Some((id, errno)),
{
    let head = signed_decimal(id as int);
    let word = decimal(code as nat) + "/"@ + signed_decimal(errno as int);
    let rest = call + " ret "@ + (word + tail);
    reveal_strlit(":");
    reveal_strlit(" ret ");
    lemma_signed_chars(id);
    law_signed_decimal_round_trip(id);
    if head.contains(':') {
        let i = choose|i: int| 0 <= i < head.len() && head[i] == ':';
        assert(is_digit(head[i]) || head[i] == '-');
    }
    lemma_first_char_absent(head, ":"@);
    lemma_find_behind(head, ":"@, rest);
    lemma_find_behind(call, " ret "@, word + tail);
    lemma_param(code, errno);
    lemma_decimal(code as nat);
    lemma_word_before_mark(word, tail);
}

/// What was seen once stays answerable: merging another read keeps every id already
/// known, with the errno of the later entry where it has one.
pub proof fn law_absorbed_keeps(cache: Map<i32, i32>, content: Seq<Seq<char>>, id: i32)
    requires
        cache.contains_key(id),
    ensures
        absorbed(cache, content).contains_key(id),
    decreases content.len(),
{
    if content.len() > 0 {
        law_absorbed_keeps(cache, content.drop_last(), id);
    }
}

/// An entry that a read shows is answerable after it, by the last line that names it.
pub proof fn law_absorbed_shows(
    cache: Map<i32, i32>,
    content: Seq<Seq<char>>,
    k: int,
    id: i32,
    errno: i32,
)
    requires
        0 <= k < content.len(),
        failed_entry(content[k]) == Some((id, errno)),
        forall|j: int|
            k < j < content.len() ==> match failed_entry(#[trigger] content[j]) {
                Some((other, _)) => other != id,
                None => true,
            },
    ensures
        absorbed(cache, content).contains_key(id),
        absorbed(cache, content)[id] == errno,
    decreases content.len(),
{
    if k < content.len() - 1 {
        let front = content.drop_last();
        assert(content.last() == content[content.len() - 1]);
        assert(front[k] == content[k]);
        assert forall|j: int| k < j < front.len() implies match failed_entry(#[trigger] front[j]) {
            Some((other, _)) => other != id,
            None => true,
        } by {
            assert(front[j] == content[j]);
        }
        law_absorbed_shows(cache, front, k, id, errno);
    }
}

} // verus!
