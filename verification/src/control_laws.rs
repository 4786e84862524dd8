//! Laws of the control channel: what each request does, and what it leaves alone.

use crate::control::{
    clamp_cap, item_lines, on_off, on_or_off, split_word, status_text, switch_of, RuntimeState,
    StateView, Step,
};
use crate::filter::{listed, FilterOutcome};
use crate::list_laws::law_one_name_is_listed;
use crate::sink::Sink;
use crate::text::{
    decimal, is_digit, is_white, law_decimal_round_trip, lemma_decimal, lemma_find_behind,
    lemma_find_none, lemma_first_char_absent, lemma_trim_keeps, lines, lower, lower_text, occurs_at,
    texts, trim, upper, upper_text,
};
use crate::text_laws::{law_lines_are_parted, law_white_space_around_is_trimmed};
use vstd::prelude::*;

verus! {

/// Whether `s` is white space.
pub open spec fn is_blank(s: Seq<char>) -> bool {
    forall|i: int| 0 <= i < s.len() ==> is_white(#[trigger] s[i])
}

/// Whether `line` is the word `cmd`, in any case, with white space around it or not.
pub open spec fn asks(line: Seq<char>, cmd: Seq<char>) -> bool {
    exists|before: Seq<char>, word: Seq<char>, after: Seq<char>|
        #![trigger before + word + after]
        is_blank(before) && is_blank(after) && upper_text(word) == cmd && line == before + word
            + after
}

/// Whether `line` is the word `cmd`, in any case, and behind a space `arg`, with more white
/// space between them and around them or not.
pub open spec fn asks_with(line: Seq<char>, cmd: Seq<char>, arg: Seq<char>) -> bool {
    exists|before: Seq<char>, word: Seq<char>, blanks: Seq<char>, after: Seq<char>|
        #![trigger before + (word + " "@ + (blanks + arg)) + after]
        is_blank(before) && is_blank(blanks) && is_blank(after) && upper_text(word) == cmd && line
            == before + (word + " "@ + (blanks + arg)) + after
}

/// Whether `line` is the word `cmd`, alone or with something behind it.
pub open spec fn says(line: Seq<char>, cmd: Seq<char>) -> bool {
    asks(line, cmd) || exists|arg: Seq<char>| #[trigger]
        asks_with(line, cmd, arg) && is_solid(arg)
}

/// Whether `s` is not empty, and has no white space at its ends.
pub open spec fn is_solid(s: Seq<char>) -> bool {
    s.len() > 0 && !is_white(s[0]) && !is_white(s.last())
}

/// Whether `cmd` is made of capital letters.
spec fn is_command(cmd: Seq<char>) -> bool {
    cmd.len() > 0 && forall|i: int| 0 <= i < cmd.len() ==> 'A' <= #[trigger] cmd[i] <= 'Z'
}

/// A word whose capitals are a command holds no white space.
proof fn lemma_solid_word(word: Seq<char>, cmd: Seq<char>)
    requires
        is_command(cmd),
        upper_text(word) == cmd,
    ensures
        word.len() > 0,
        forall|i: int| 0 <= i < word.len() ==> !is_white(#[trigger] word[i]),
        !word.contains(' '),
{
    assert(upper_text(word).len() == word.len());
    assert forall|i: int| 0 <= i < word.len() implies !is_white(#[trigger] word[i]) by {
        assert(upper_text(word)[i] == upper(word[i]));
        assert('A' <= cmd[i] <= 'Z');
    }
}

proof fn lemma_asked(line: Seq<char>, cmd: Seq<char>)
    requires
        is_command(cmd),
        asks(line, cmd),
    ensures
        upper_text(split_word(trim(line)).0) == cmd,
        split_word(trim(line)).1 == Seq::<char>::empty(),
{
    let (before, word, after) = choose|before: Seq<char>, word: Seq<char>, after: Seq<char>|
        #![trigger before + word + after]
        is_blank(before) && is_blank(after) && upper_text(word) == cmd && line == before + word
            + after;
    lemma_solid_word(word, cmd);
    law_white_space_around_is_trimmed(before, word, after);
    reveal_strlit(" ");
    assert forall|j: int| 0 <= j implies !occurs_at(word, " "@, j) by {
        if occurs_at(word, " "@, j) {
            assert(word.subrange(j, j + 1)[0] == word[j]);
        }
    }
    lemma_find_none(word, " "@, 0);
}

proof fn lemma_asked_with(line: Seq<char>, cmd: Seq<char>, arg: Seq<char>)
    requires
        is_command(cmd),
        asks_with(line, cmd, arg),
        arg.len() > 0,
        !is_white(arg[0]),
        !is_white(arg.last()),
    ensures
        upper_text(split_word(trim(line)).0) == cmd,
        split_word(trim(line)).1 == arg,
{
    let (before, word, blanks, after) = choose|
        before: Seq<char>,
        word: Seq<char>,
        blanks: Seq<char>,
        after: Seq<char>,
    |
        #![trigger before + (word + " "@ + (blanks + arg)) + after]
        is_blank(before) && is_blank(blanks) && is_blank(after) && upper_text(word) == cmd && line
            == before + (word + " "@ + (blanks + arg)) + after;
    lemma_solid_word(word, cmd);
    let x = word + " "@ + (blanks + arg);
    assert(x[0] == word[0]);
    assert(x.last() == arg.last());
    law_white_space_around_is_trimmed(before, x, after);
    reveal_strlit(" ");
    lemma_first_char_absent(word, " "@);
    lemma_find_behind(word, " "@, blanks + arg);
    let none = Seq::<char>::empty();
    law_white_space_around_is_trimmed(blanks, arg, none);
    assert(blanks + arg + none =~= blanks + arg);
}

proof fn lemma_said(line: Seq<char>, cmd: Seq<char>)
    requires
        is_command(cmd),
        says(line, cmd),
    ensures
        upper_text(split_word(trim(line)).0) == cmd,
{
    if asks(line, cmd) {
        lemma_asked(line, cmd);
    } else {
        let arg = choose|arg: Seq<char>| #[trigger] asks_with(line, cmd, arg) && is_solid(arg);
        lemma_asked_with(line, cmd, arg);
    }
}

/// The commands are words of capital letters, no two of them the same.
proof fn lemma_commands()
    ensures
        forall|i: int| 0 <= i < 12 ==> is_command(#[trigger] commands()[i]),
        forall|i: int, j: int|
            0 <= i < j < 12 ==> #[trigger] commands()[i] != #[trigger] commands()[j],
        commands()[0] == "STATUS"@,
        commands()[1] == "START"@,
        commands()[2] == "STOP"@,
        commands()[3] == "SINK"@,
        commands()[4] == "DLT"@,
        commands()[5] == "ERRORS"@,
        commands()[6] == "PARCEL"@,
        commands()[7] == "TRACK"@,
        commands()[8] == "LIST"@,
        commands()[9] == "GET"@,
        commands()[10] == "SET"@,
        commands()[11] == "CLEAR"@,
{
    reveal_strlit("STATUS");
    reveal_strlit("START");
    reveal_strlit("STOP");
    reveal_strlit("SINK");
    reveal_strlit("DLT");
    reveal_strlit("ERRORS");
    reveal_strlit("PARCEL");
    reveal_strlit("TRACK");
    reveal_strlit("LIST");
    reveal_strlit("GET");
    reveal_strlit("SET");
    reveal_strlit("CLEAR");
    let all = commands();
    assert forall|i: int, j: int| 0 <= i < j < 12 implies #[trigger] all[i]
        != #[trigger] all[j] by {
        if all[i] == all[j] {
            assert(all[i].len() == all[j].len());
            assert(all[i][0] == all[j][0] && all[i][1] == all[j][1] && all[i][2] == all[j][2]);
            assert(all[i].last() == all[j].last());
        }
    }
}

spec fn commands() -> Seq<Seq<char>> {
    seq![
        "STATUS"@,
        "START"@,
        "STOP"@,
        "SINK"@,
        "DLT"@,
        "ERRORS"@,
        "PARCEL"@,
        "TRACK"@,
        "LIST"@,
        "GET"@,
        "SET"@,
        "CLEAR"@,
    ]
}

/// Whether a step is this reply.
pub open spec fn replies(step: Step, text: Seq<char>) -> bool {
    step matches Step::Reply(s) && s@ == text
}

/// Whether a step is a refusal: a reply that starts with `ERR`.
pub open spec fn refuses(step: Step) -> bool {
    step matches Step::Reply(s) && occurs_at(s@, "ERR "@, 0)
}

/// A text that starts with `ERR ` is a refusal.
proof fn lemma_refusal(rest: Seq<char>)
    ensures
        occurs_at("ERR "@ + rest, "ERR "@, 0),
{
    assert(("ERR "@ + rest).subrange(0, "ERR "@.len() as int) =~= "ERR "@);
}

/// `START` and `STOP` switch capture, and change nothing else, whatever follows them.
pub proof fn law_capture_is_switched(state: &mut RuntimeState, line: &str, on: bool, r: Step)
    requires
        call_ensures(RuntimeState::request, (state, line), r),
        says(
            line@,
            if on {
                "START"@
            } else {
                "STOP"@
            },
        ),
    ensures
        replies(r, "OK\n"@),
        final(state)@ == (StateView { capturing: on, ..old(state)@ }),
{
    lemma_commands();
    lemma_said(
        line@,
        if on {
            commands()[1]
        } else {
            commands()[2]
        },
    );
}

/// Each sink is chosen by its name, in any case, and nothing else changes.
pub proof fn law_sink_is_chosen(
    state: &mut RuntimeState,
    line: &str,
    sink: Sink,
    arg: Seq<char>,
    r: Step,
)
    requires
        call_ensures(RuntimeState::request, (state, line), r),
        asks_with(line@, "SINK"@, arg),
        lower_text(arg) == match sink {
            Sink::Console => "console"@,
            Sink::Logcat => "logcat"@,
            Sink::Both => "both"@,
            Sink::Quiet => "none"@,
        },
    ensures
        replies(r, "OK\n"@),
        final(state)@ == (StateView { sink, ..old(state)@ }),
{
    lemma_commands();
    reveal_strlit("console");
    reveal_strlit("logcat");
    reveal_strlit("both");
    reveal_strlit("none");
    lemma_letters(arg, lower_text(arg));
    lemma_asked_with(line@, commands()[3], arg);
    assert("console"@[0] == 'c' && "logcat"@[0] == 'l' && "both"@[0] == 'b' && "none"@[0] == 'n');
}

/// A text whose small letters are letters or digits has no white space at its ends.
proof fn lemma_letters(arg: Seq<char>, small: Seq<char>)
    requires
        small == lower_text(arg),
        small.len() > 0,
        !is_white(small[0]),
        !is_white(small.last()),
    ensures
        arg.len() > 0,
        !is_white(arg[0]),
        !is_white(arg.last()),
{
    assert(small.len() == arg.len());
    assert(small[0] == lower(arg[0]));
    assert(small.last() == lower(arg.last()));
}

/// A sink of no such name is refused, and nothing changes.
pub proof fn law_unknown_sink_is_refused(
    state: &mut RuntimeState,
    line: &str,
    arg: Seq<char>,
    r: Step,
)
    requires
        call_ensures(RuntimeState::request, (state, line), r),
        asks_with(line@, "SINK"@, arg),
        arg.len() > 0,
        !is_white(arg[0]),
        !is_white(arg.last()),
        lower_text(arg) != "console"@,
        lower_text(arg) != "logcat"@,
        lower_text(arg) != "both"@,
        lower_text(arg) != "none"@,
    ensures
        replies(r, "ERR sink must be console|logcat|both|none\n"@),
        final(state)@ == old(state)@,
{
    lemma_commands();
    lemma_asked_with(line@, commands()[3], arg);
}

/// Whether a word switches to `on`, in any case.
pub open spec fn switches(word: Seq<char>, on: bool) -> bool {
    let w = lower_text(word);
    if on {
        w == "on"@ || w == "1"@ || w == "true"@
    } else {
        w == "off"@ || w == "0"@ || w == "false"@
    }
}

/// A word that switches one way does not switch the other, and is one word.
proof fn lemma_switches(word: Seq<char>, on: bool)
    requires
        switches(word, on),
    ensures
        switch_of(word) == Some(on),
        word.len() > 0,
        !is_white(word[0]),
        !is_white(word.last()),
        lower_text(word) != "max"@,
        split_word(word).0 == word,
{
    reveal_strlit("on");
    reveal_strlit("1");
    reveal_strlit("true");
    reveal_strlit("off");
    reveal_strlit("0");
    reveal_strlit("false");
    reveal_strlit("max");
    reveal_strlit(" ");
    assert("on"@[0] == 'o' && "on"@[1] == 'n' && "1"@[0] == '1' && "true"@[0] == 't');
    assert("off"@[0] == 'o' && "off"@[1] == 'f' && "0"@[0] == '0' && "false"@[0] == 'f');
    assert("max"@[0] == 'm');
    let w = lower_text(word);
    lemma_letters(word, w);
    assert forall|i: int| 0 <= i < word.len() implies #[trigger] word[i] != ' ' by {
        assert(w[i] == lower(word[i]));
    }
    assert forall|j: int| 0 <= j implies !occurs_at(word, " "@, j) by {
        if occurs_at(word, " "@, j) {
            assert(word.subrange(j, j + 1)[0] == word[j]);
        }
    }
    lemma_find_none(word, " "@, 0);
}

/// `DLT` and `TRACK` switch DLT streaming and interface discovery, each alone.
pub proof fn law_streaming_and_discovery_are_switched(
    state: &mut RuntimeState,
    line: &str,
    arg: Seq<char>,
    on: bool,
    r: Step,
)
    requires
        call_ensures(RuntimeState::request, (state, line), r),
        switches(arg, on),
        asks_with(line@, "DLT"@, arg) || asks_with(line@, "TRACK"@, arg),
    ensures
        replies(r, "OK\n"@),
        asks_with(line@, "DLT"@, arg) ==> final(state)@ == (StateView {
            dlt_on: on,
            ..old(state)@
        }),
        asks_with(line@, "TRACK"@, arg) ==> final(state)@ == (StateView {
            discovering: on,
            ..old(state)@
        }),
{
    lemma_commands();
    lemma_switches(arg, on);
    if asks_with(line@, "DLT"@, arg) {
        lemma_asked_with(line@, commands()[4], arg);
    }
    if asks_with(line@, "TRACK"@, arg) {
        lemma_asked_with(line@, commands()[7], arg);
    }
}

/// `ERRORS` asks the kernel to switch error capture, and changes nothing before that is done.
pub proof fn law_error_capture_is_switched(
    state: &mut RuntimeState,
    line: &str,
    arg: Seq<char>,
    on: bool,
    r: Step,
)
    requires
        call_ensures(RuntimeState::request, (state, line), r),
        switches(arg, on),
        asks_with(line@, "ERRORS"@, arg),
    ensures
        r == Step::Errors(on),
        final(state)@ == old(state)@,
{
    lemma_commands();
    lemma_switches(arg, on);
    lemma_asked_with(line@, commands()[5], arg);
}

/// `PARCEL` asks the kernel to switch parcel capture: off at any time, on only while the
/// kernel filters by some interface; else it is refused.
pub proof fn law_parcel_capture_is_switched(
    state: &mut RuntimeState,
    line: &str,
    arg: Seq<char>,
    on: bool,
    r: Step,
)
    requires
        call_ensures(RuntimeState::request, (state, line), r),
        switches(arg, on),
        asks_with(line@, "PARCEL"@, arg),
    ensures
        final(state)@ == old(state)@,
        !on ==> r == Step::Parcel(false),
        on && old(state)@.filter.on && old(state)@.filter.active.len() > 0 ==> r == Step::Parcel(
            true,
        ),
        on && !(old(state)@.filter.on && old(state)@.filter.active.len() > 0) ==> refuses(r),
{
    lemma_commands();
    lemma_switches(arg, on);
    lemma_asked_with(line@, commands()[6], arg);
    let why = "PARCEL needs an active interface filter (SET one first)"@;
    assert("ERR "@ + why + "\n"@ =~= "ERR "@ + (why + "\n"@));
    lemma_refusal(why + "\n"@);
}

/// `PARCEL max` asks the kernel for the cap that is given, whatever it is up to the
/// ceiling, and for the ceiling where it is larger.
pub proof fn law_cap_is_asked_for(
    state: &mut RuntimeState,
    line: &str,
    max: Seq<char>,
    blanks: Seq<char>,
    bytes: u32,
    r: Step,
)
    requires
        call_ensures(RuntimeState::request, (state, line), r),
        lower_text(max) == "max"@,
        is_blank(blanks),
        asks_with(line@, "PARCEL"@, max + " "@ + (blanks + decimal(bytes as nat))),
    ensures
        final(state)@ == old(state)@,
        r matches Step::ParcelMax(n) && n <= 30720 && (bytes <= 30720 ==> n == bytes) && (bytes
            > 30720 ==> n == 30720),
{
    lemma_commands();
    reveal_strlit("max");
    reveal_strlit(" ");
    let digits = decimal(bytes as nat);
    let arg = max + " "@ + (blanks + digits);
    lemma_decimal(bytes as nat);
    lemma_letters(max, lower_text(max));
    assert(arg[0] == max[0]);
    assert(is_digit(digits[digits.len() - 1]) && is_digit(digits[0]));
    assert(arg.last() == digits[digits.len() - 1]);
    lemma_asked_with(line@, commands()[6], arg);
    assert(!max.contains(' ')) by {
        assert("max"@[0] == 'm' && "max"@[1] == 'a' && "max"@[2] == 'x');
        assert(lower_text(max).len() == max.len());
        assert forall|i: int| 0 <= i < max.len() implies #[trigger] max[i] != ' ' by {
            assert(lower_text(max)[i] == lower(max[i]));
        }
    }
    lemma_first_char_absent(max, " "@);
    lemma_find_behind(max, " "@, blanks + digits);
    let none = Seq::<char>::empty();
    law_white_space_around_is_trimmed(blanks, digits, none);
    assert(blanks + digits + none =~= blanks + digits);
    law_decimal_round_trip(bytes as nat, u32::MAX as nat);
}

/// A switch by a word that is none is refused, and nothing changes.
pub proof fn law_unknown_switch_is_refused(
    state: &mut RuntimeState,
    line: &str,
    arg: Seq<char>,
    r: Step,
)
    requires
        call_ensures(RuntimeState::request, (state, line), r),
        arg.len() > 0,
        !is_white(arg[0]),
        !is_white(arg.last()),
        !switches(arg, true),
        !switches(arg, false),
        lower_text(split_word(arg).0) != "max"@,
        asks_with(line@, "DLT"@, arg) || asks_with(line@, "TRACK"@, arg) || asks_with(
            line@,
            "ERRORS"@,
            arg,
        ) || asks_with(line@, "PARCEL"@, arg),
    ensures
        final(state)@ == old(state)@,
        refuses(r),
{
    lemma_commands();
    if asks_with(line@, "DLT"@, arg) {
        lemma_asked_with(line@, commands()[4], arg);
    } else if asks_with(line@, "TRACK"@, arg) {
        lemma_asked_with(line@, commands()[7], arg);
    } else if asks_with(line@, "ERRORS"@, arg) {
        lemma_asked_with(line@, commands()[5], arg);
    } else {
        lemma_asked_with(line@, commands()[6], arg);
    }
    reveal_strlit("ERR ");
    reveal_strlit("ERR DLT needs on|off\n");
    reveal_strlit("ERR TRACK needs on|off\n");
    reveal_strlit("ERR ERRORS needs on|off\n");
    reveal_strlit("ERR PARCEL needs on|off or max <bytes>\n");
    assert("ERR DLT needs on|off\n"@.subrange(0, 4) =~= "ERR "@);
    assert("ERR TRACK needs on|off\n"@.subrange(0, 4) =~= "ERR "@);
    assert("ERR ERRORS needs on|off\n"@.subrange(0, 4) =~= "ERR "@);
    assert("ERR PARCEL needs on|off or max <bytes>\n"@.subrange(0, 4) =~= "ERR "@);
}

/// `SET` asks for the filter by the names that are listed, `CLEAR` for none; neither
/// changes anything before the kernel has done it.
pub proof fn law_filter_is_asked_for(
    state: &mut RuntimeState,
    line: &str,
    list: Seq<char>,
    r: Step,
)
    requires
        call_ensures(RuntimeState::request, (state, line), r),
        ({
            ||| says(line@, "CLEAR"@)
            ||| asks_with(line@, "SET"@, list) && list.len() > 0 && !is_white(list[0])
                && !is_white(list.last())
        }),
    ensures
        final(state)@ == old(state)@,
        r matches Step::Filter(names) && texts(names@) == if says(line@, "CLEAR"@) {
            seq![]
        } else {
            listed(list)
        },
{
    lemma_commands();
    if says(line@, "CLEAR"@) {
        lemma_said(line@, commands()[11]);
    } else {
        lemma_asked_with(line@, commands()[10], list);
    }
}

/// A word that is no command is refused, with the word in the reply; a blank line is passed
/// over in silence. Neither changes anything.
pub proof fn law_unknown_command_is_refused(
    state: &mut RuntimeState,
    line: &str,
    cmd: Seq<char>,
    r: Step,
)
    requires
        call_ensures(RuntimeState::request, (state, line), r),
        is_blank(line@) || asks(line@, cmd),
        cmd.len() > 0,
        forall|i: int| 0 <= i < cmd.len() ==> 'A' <= #[trigger] cmd[i] <= 'Z',
        cmd != "STATUS"@,
        cmd != "START"@,
        cmd != "STOP"@,
        cmd != "SINK"@,
        cmd != "DLT"@,
        cmd != "ERRORS"@,
        cmd != "PARCEL"@,
        cmd != "TRACK"@,
        cmd != "LIST"@,
        cmd != "GET"@,
        cmd != "SET"@,
        cmd != "CLEAR"@,
    ensures
        final(state)@ == old(state)@,
        is_blank(line@) ==> r == Step::Silent,
        !is_blank(line@) ==> replies(r, "ERR unknown command "@ + cmd + "\n"@),
{
    if is_blank(line@) {
        let none = Seq::<char>::empty();
        law_white_space_around_is_trimmed(none, none, line@);
        assert(none + none + line@ =~= line@);
        reveal_strlit(" ");
        assert forall|j: int| 0 <= j implies !occurs_at(none, " "@, j) by {}
        lemma_find_none(none, " "@, 0);
        assert(upper_text(none) =~= none);
        lemma_commands();
        assert forall|i: int| 0 <= i < 12 implies #[trigger] commands()[i] != none by {
            assert(is_command(commands()[i]));
        }
    } else {
        lemma_asked(line@, cmd);
    }
}

/// Whether each of these is one line.
pub open spec fn are_lines(items: Seq<Seq<char>>) -> bool {
    forall|i: int|
        0 <= i < items.len() ==> !(#[trigger] items[i]).contains('\n') && (items[i].len() == 0
            || items[i].last() != '\r')
}

proof fn lemma_item_lines_front(items: Seq<Seq<char>>)
    requires
        items.len() > 0,
    ensures
        item_lines(items) == items[0] + seq!['\n'] + item_lines(items.drop_first()),
    decreases items.len(),
{
    reveal_strlit("\n");
    assert("\n"@ =~= seq!['\n']);
    let front = items.drop_last();
    if front.len() == 0 {
        assert(items.drop_first() =~= Seq::<Seq<char>>::empty());
        assert(front =~= Seq::<Seq<char>>::empty());
        assert(item_lines(items) =~= items[0] + seq!['\n'] + item_lines(items.drop_first()));
    } else {
        lemma_item_lines_front(front);
        assert(front.drop_first() =~= items.drop_first().drop_last());
        assert(item_lines(items) =~= items[0] + seq!['\n'] + item_lines(items.drop_first()));
    }
}

/// Items written one per line are the lines of what is written.
pub proof fn law_items_are_lines(items: Seq<Seq<char>>)
    requires
        are_lines(items),
    ensures
        lines(item_lines(items)) == items,
    decreases items.len(),
{
    if items.len() == 0 {
        assert(lines(item_lines(items)) =~= items);
    } else {
        let rest = items.drop_first();
        lemma_item_lines_front(items);
        assert forall|i: int| 0 <= i < rest.len() implies !(#[trigger] rest[i]).contains('\n') && (
        rest[i].len() == 0 || rest[i].last() != '\r') by {
            assert(rest[i] == items[i + 1]);
        }
        law_items_are_lines(rest);
        law_lines_are_parted(items[0], item_lines(rest));
        assert(seq![items[0]] + rest =~= items);
    }
}

/// `LIST` shows every interface that was observed and `GET` every one of the filter, one per
/// line in their order, then `END`. Neither changes anything.
pub proof fn law_interfaces_are_listed(state: &mut RuntimeState, line: &str, r: Step)
    requires
        call_ensures(RuntimeState::request, (state, line), r),
        says(line@, "LIST"@) || says(line@, "GET"@),
        are_lines(old(state)@.observed),
        are_lines(old(state)@.filter.active),
    ensures
        final(state)@ == old(state)@,
        r matches Step::Reply(s) && lines(s@) == if says(line@, "LIST"@) {
            old(state)@.observed.push("END"@)
        } else {
            old(state)@.filter.active.push("END"@)
        },
{
    lemma_commands();
    let items = if says(line@, "LIST"@) {
        lemma_said(line@, commands()[8]);
        old(state)@.observed
    } else {
        lemma_said(line@, commands()[9]);
        old(state)@.filter.active
    };
    reveal_strlit("END");
    reveal_strlit("END\n");
    reveal_strlit("\n");
    let all = items.push("END"@);
    assert(all.drop_last() =~= items);
    assert(item_lines(all) =~= item_lines(items) + "END\n"@);
    assert(!"END"@.contains('\n'));
    assert forall|i: int| 0 <= i < all.len() implies !(#[trigger] all[i]).contains('\n') && (
    all[i].len() == 0 || all[i].last() != '\r') by {
        if i < items.len() {
            assert(all[i] == items[i]);
        }
    }
    law_items_are_lines(all);
}

/// A text of letters, digits and signs is one line.
spec fn is_plain_line(s: Seq<char>) -> bool {
    forall|i: int| 0 <= i < s.len() ==> (#[trigger] s[i]) as u32 >= 0x20
}

proof fn lemma_status_next(
    text: Seq<char>,
    items: Seq<Seq<char>>,
    line: Seq<char>,
    mark: Seq<char>,
    key: Seq<char>,
    value: Seq<char>,
)
    requires
        text == item_lines(items) + line,
        mark == "\n"@ + key,
    ensures
        text + mark + value == item_lines(items.push(line)) + (key + value),
{
    assert(items.push(line).drop_last() =~= items);
    assert(text + mark + value =~= item_lines(items.push(line)) + (key + value));
}

/// `on` or `off`.
pub open spec fn on_off_word(b: bool) -> Seq<char> {
    if b {
        "on"@
    } else {
        "off"@
    }
}

/// The name of a sink.
pub open spec fn sink_word(sink: Sink) -> Seq<char> {
    match sink {
        Sink::Console => "console"@,
        Sink::Logcat => "logcat"@,
        Sink::Both => "both"@,
        Sink::Quiet => "none"@,
    }
}

/// The lines of a status.
spec fn status_lines(s: StateView) -> Seq<Seq<char>> {
    seq![
        "capturing="@ + on_off_word(s.capturing),
        "discovering="@ + on_off_word(s.discovering),
        "sink="@ + sink_word(s.sink),
        "dlt="@ + on_off_word(s.dlt_on),
        "dlt_port="@ + decimal(s.dlt_port as nat),
        "errors="@ + on_off_word(s.errors_on),
        "parcel="@ + on_off_word(s.parcel_on),
        "parcel_max="@ + decimal(s.parcel_max as nat),
        "filter="@ + decimal(s.filter.active.len()),
        "captured="@ + decimal(s.captured as nat),
        "emitted="@ + decimal(s.emitted as nat),
        "END"@,
    ]
}

proof fn lemma_status_marks()
    ensures
        "\ndiscovering="@ == "\n"@ + "discovering="@,
        "\nsink="@ == "\n"@ + "sink="@,
        "\ndlt="@ == "\n"@ + "dlt="@,
        "\ndlt_port="@ == "\n"@ + "dlt_port="@,
        "\nerrors="@ == "\n"@ + "errors="@,
        "\nparcel="@ == "\n"@ + "parcel="@,
        "\nparcel_max="@ == "\n"@ + "parcel_max="@,
        "\nfilter="@ == "\n"@ + "filter="@,
        "\ncaptured="@ == "\n"@ + "captured="@,
        "\nemitted="@ == "\n"@ + "emitted="@,
        "\nEND\n"@ == "\n"@ + "END\n"@,
        "END\n"@ == "END"@ + "\n"@,
{
    reveal_strlit("\n");
    reveal_strlit("\ndiscovering=");
    reveal_strlit("\nsink=");
    reveal_strlit("\ndlt=");
    reveal_strlit("\ndlt_port=");
    reveal_strlit("\nerrors=");
    reveal_strlit("\nparcel=");
    reveal_strlit("\nparcel_max=");
    reveal_strlit("\nfilter=");
    reveal_strlit("\ncaptured=");
    reveal_strlit("\nemitted=");
    reveal_strlit("\nEND\n");
    reveal_strlit("END\n");
    reveal_strlit("discovering=");
    reveal_strlit("sink=");
    reveal_strlit("dlt=");
    reveal_strlit("dlt_port=");
    reveal_strlit("errors=");
    reveal_strlit("parcel=");
    reveal_strlit("parcel_max=");
    reveal_strlit("filter=");
    reveal_strlit("captured=");
    reveal_strlit("emitted=");
    reveal_strlit("END");
    assert("\ndiscovering="@ =~= "\n"@ + "discovering="@);
    assert("\nsink="@ =~= "\n"@ + "sink="@);
    assert("\ndlt="@ =~= "\n"@ + "dlt="@);
    assert("\ndlt_port="@ =~= "\n"@ + "dlt_port="@);
    assert("\nerrors="@ =~= "\n"@ + "errors="@);
    assert("\nparcel="@ =~= "\n"@ + "parcel="@);
    assert("\nparcel_max="@ =~= "\n"@ + "parcel_max="@);
    assert("\nfilter="@ =~= "\n"@ + "filter="@);
    assert("\ncaptured="@ =~= "\n"@ + "captured="@);
    assert("\nemitted="@ =~= "\n"@ + "emitted="@);
    assert("\nEND\n"@ =~= "\n"@ + "END\n"@);
    assert("END\n"@ =~= "END"@ + "\n"@);
}

/// The text of a status is its lines.
proof fn lemma_status_text(s: StateView)
    ensures
        status_text(s) == item_lines(status_lines(s)),
{
    lemma_status_marks();
    let all = status_lines(s);
    let n0 = Seq::<Seq<char>>::empty();
    let t0 = "capturing="@ + on_or_off(s.capturing);
    assert(t0 =~= item_lines(n0) + all[0]);
    let n1 = n0.push(all[0]);
    lemma_status_next(
        t0,
        n0,
        all[0],
        "\ndiscovering="@,
        "discovering="@,
        on_or_off(s.discovering),
    );
    let t1 = t0 + "\ndiscovering="@ + on_or_off(s.discovering);
    let n2 = n1.push(all[1]);
    lemma_status_next(t1, n1, all[1], "\nsink="@, "sink="@, s.sink.named());
    let t2 = t1 + "\nsink="@ + s.sink.named();
    let n3 = n2.push(all[2]);
    lemma_status_next(t2, n2, all[2], "\ndlt="@, "dlt="@, on_or_off(s.dlt_on));
    let t3 = t2 + "\ndlt="@ + on_or_off(s.dlt_on);
    let n4 = n3.push(all[3]);
    lemma_status_next(t3, n3, all[3], "\ndlt_port="@, "dlt_port="@, decimal(s.dlt_port as nat));
    let t4 = t3 + "\ndlt_port="@ + decimal(s.dlt_port as nat);
    let n5 = n4.push(all[4]);
    lemma_status_next(t4, n4, all[4], "\nerrors="@, "errors="@, on_or_off(s.errors_on));
    let t5 = t4 + "\nerrors="@ + on_or_off(s.errors_on);
    let n6 = n5.push(all[5]);
    lemma_status_next(t5, n5, all[5], "\nparcel="@, "parcel="@, on_or_off(s.parcel_on));
    let t6 = t5 + "\nparcel="@ + on_or_off(s.parcel_on);
    let n7 = n6.push(all[6]);
    lemma_status_next(
        t6,
        n6,
        all[6],
        "\nparcel_max="@,
        "parcel_max="@,
        decimal(s.parcel_max as nat),
    );
    let t7 = t6 + "\nparcel_max="@ + decimal(s.parcel_max as nat);
    let n8 = n7.push(all[7]);
    lemma_status_next(t7, n7, all[7], "\nfilter="@, "filter="@, decimal(s.filter.active.len()));
    let t8 = t7 + "\nfilter="@ + decimal(s.filter.active.len());
    let n9 = n8.push(all[8]);
    lemma_status_next(t8, n8, all[8], "\ncaptured="@, "captured="@, decimal(s.captured as nat));
    let t9 = t8 + "\ncaptured="@ + decimal(s.captured as nat);
    let n10 = n9.push(all[9]);
    lemma_status_next(t9, n9, all[9], "\nemitted="@, "emitted="@, decimal(s.emitted as nat));
    let t10 = t9 + "\nemitted="@ + decimal(s.emitted as nat);
    let n11 = n10.push(all[10]);
    let end = Seq::<char>::empty();
    lemma_status_next(t10, n10, all[10], "\nEND\n"@, "END\n"@, end);
    assert(t10 + "\nEND\n"@ + end =~= t10 + "\nEND\n"@);
    assert("END\n"@ + end =~= "END\n"@);
    let n12 = n11.push(all[11]);
    assert(n12.drop_last() =~= n11);
    assert(item_lines(n12) =~= item_lines(n11) + "END\n"@);
    assert(n12 =~= all);
    assert(status_text(s) == t10 + "\nEND\n"@);
}

proof fn lemma_plain_concat(a: Seq<char>, b: Seq<char>)
    requires
        is_plain_line(a),
        is_plain_line(b),
    ensures
        is_plain_line(a + b),
{
    assert forall|i: int| 0 <= i < (a + b).len() implies (#[trigger] (a + b)[i]) as u32 >= 0x20 by {
        if i < a.len() {
            assert((a + b)[i] == a[i]);
        } else {
            assert((a + b)[i] == b[i - a.len()]);
        }
    }
}

proof fn lemma_plain_decimal(n: nat)
    ensures
        is_plain_line(decimal(n)),
{
    lemma_decimal(n);
    assert forall|i: int| 0 <= i < decimal(n).len() implies (#[trigger] decimal(n)[i]) as u32
        >= 0x20 by {
        assert(is_digit(decimal(n)[i]));
    }
}

proof fn lemma_status_is_lines(s: StateView)
    ensures
        are_lines(status_lines(s)),
{
    reveal_strlit("capturing=");
    reveal_strlit("discovering=");
    reveal_strlit("sink=");
    reveal_strlit("dlt=");
    reveal_strlit("dlt_port=");
    reveal_strlit("errors=");
    reveal_strlit("parcel=");
    reveal_strlit("parcel_max=");
    reveal_strlit("filter=");
    reveal_strlit("captured=");
    reveal_strlit("emitted=");
    reveal_strlit("END");
    reveal_strlit("on");
    reveal_strlit("off");
    reveal_strlit("console");
    reveal_strlit("logcat");
    reveal_strlit("both");
    reveal_strlit("none");
    assert(is_plain_line("on"@) && is_plain_line("off"@));
    lemma_plain_decimal(s.dlt_port as nat);
    lemma_plain_decimal(s.parcel_max as nat);
    lemma_plain_decimal(s.filter.active.len());
    lemma_plain_decimal(s.captured as nat);
    lemma_plain_decimal(s.emitted as nat);
    lemma_plain_concat("capturing="@, on_off_word(s.capturing));
    lemma_plain_concat("discovering="@, on_off_word(s.discovering));
    lemma_plain_concat("sink="@, sink_word(s.sink));
    lemma_plain_concat("dlt="@, on_off_word(s.dlt_on));
    lemma_plain_concat("dlt_port="@, decimal(s.dlt_port as nat));
    lemma_plain_concat("errors="@, on_off_word(s.errors_on));
    lemma_plain_concat("parcel="@, on_off_word(s.parcel_on));
    lemma_plain_concat("parcel_max="@, decimal(s.parcel_max as nat));
    lemma_plain_concat("filter="@, decimal(s.filter.active.len()));
    lemma_plain_concat("captured="@, decimal(s.captured as nat));
    lemma_plain_concat("emitted="@, decimal(s.emitted as nat));
    let all = status_lines(s);
    assert forall|i: int| 0 <= i < all.len() implies !(#[trigger] all[i]).contains('\n') && (
    all[i].len() == 0 || all[i].last() != '\r') by {
        assert(is_plain_line(all[i]));
    }
}

/// `STATUS` shows the whole state, one `key=value` per line, then `END`: each switch as `on`
/// or `off`, the sink by its name, each number in decimal. It changes nothing.
pub proof fn law_status_shows_the_state(state: &mut RuntimeState, line: &str, r: Step)
    requires
        call_ensures(RuntimeState::request, (state, line), r),
        says(line@, "STATUS"@),
    ensures
        final(state)@ == old(state)@,
        ({
            let s = old(state)@;
            r matches Step::Reply(t) && lines(t@) == seq![
                "capturing="@ + on_off_word(s.capturing),
                "discovering="@ + on_off_word(s.discovering),
                "sink="@ + sink_word(s.sink),
                "dlt="@ + on_off_word(s.dlt_on),
                "dlt_port="@ + decimal(s.dlt_port as nat),
                "errors="@ + on_off_word(s.errors_on),
                "parcel="@ + on_off_word(s.parcel_on),
                "parcel_max="@ + decimal(s.parcel_max as nat),
                "filter="@ + decimal(s.filter.active.len()),
                "captured="@ + decimal(s.captured as nat),
                "emitted="@ + decimal(s.emitted as nat),
                "END"@,
            ]
        }),
{
    lemma_commands();
    lemma_said(line@, commands()[0]);
    let s = old(state)@;
    lemma_status_text(s);
    lemma_status_is_lines(s);
    law_items_are_lines(status_lines(s));
}

/// What the kernel did is what holds: once it has switched error capture, that is switched,
/// and nothing else; where it could not, nothing changes, and the reply is its failure.
pub proof fn law_outcome_of_error_capture(
    state: &mut RuntimeState,
    on: bool,
    outcome: Result<(), String>,
    r: String,
)
    requires
        call_ensures(RuntimeState::errors_set, (state, on, outcome), r),
    ensures
        outcome is Ok ==> r@ == "OK\n"@ && final(state)@ == (StateView {
            errors_on: on,
            ..old(state)@
        }),
        outcome matches Err(e) ==> r@ == "ERR "@ + e@ + "\n"@ && final(state)@ == old(state)@,
{
}

/// The same of parcel capture, which is never switched on while the kernel does not filter
/// by some interface.
pub proof fn law_outcome_of_parcel_capture(
    state: &mut RuntimeState,
    on: bool,
    outcome: Result<(), String>,
    r: String,
)
    requires
        call_ensures(RuntimeState::parcel_set, (state, on, outcome), r),
    ensures
        ({
            let may = !on || (old(state)@.filter.on && old(state)@.filter.active.len() > 0);
            &&& may && outcome is Ok ==> r@ == "OK\n"@ && final(state)@ == (StateView {
                parcel_on: on,
                ..old(state)@
            })
            &&& !may || outcome is Err ==> occurs_at(r@, "ERR "@, 0) && final(state)@ == old(state)@
        }),
{
    let why = "PARCEL needs an active interface filter (SET one first)"@;
    assert("ERR "@ + why + "\n"@ =~= "ERR "@ + (why + "\n"@));
    lemma_refusal(why + "\n"@);
    if outcome is Err {
        let e = outcome->Err_0@;
        assert("ERR "@ + e + "\n"@ =~= "ERR "@ + (e + "\n"@));
        lemma_refusal(e + "\n"@);
    }
}

/// The same of the cap on captured payload, which is never above the ceiling; the reply
/// tells the cap that now holds.
pub proof fn law_outcome_of_the_cap(
    state: &mut RuntimeState,
    bytes: u32,
    outcome: Result<(), String>,
    r: String,
)
    requires
        call_ensures(RuntimeState::parcel_max_set, (state, bytes, outcome), r),
    ensures
        ({
            let cap: u32 = if bytes <= 30720 {
                bytes
            } else {
                30720
            };
            outcome is Ok ==> r@ == "OK "@ + decimal(cap as nat) + "\n"@ && final(state)@ == (
            StateView { parcel_max: cap, ..old(state)@ })
        }),
        outcome matches Err(e) ==> r@ == "ERR "@ + e@ + "\n"@ && final(state)@ == old(state)@,
{
}

/// The same of the filter: once the kernel has made all updates, the names are active in the
/// order given, the kernel filters where there is one, and the reply tells their number;
/// where it could not, the reply is a refusal. Nothing but the filter changes, and parcel
/// capture is to be switched off exactly where no name is active.
pub proof fn law_outcome_of_the_filter(
    state: &mut RuntimeState,
    names: &Vec<String>,
    outcome: FilterOutcome,
    r: (String, bool),
)
    requires
        outcome matches FilterOutcome::InsertFailed(k) ==> k < names@.len(),
        call_ensures(RuntimeState::filter_set, (state, names, outcome), r),
    ensures
        final(state)@ == (StateView { filter: final(state)@.filter, ..old(state)@ }),
        r.1 == (final(state)@.filter.active.len() == 0),
        outcome == FilterOutcome::Applied ==> {
            &&& r.0@ == "OK "@ + decimal(names@.len()) + "\n"@
            &&& final(state)@.filter.active == texts(names@)
            &&& final(state)@.filter.on == (names@.len() > 0)
        },
        outcome != FilterOutcome::Applied ==> {
            &&& occurs_at(r.0@, "ERR "@, 0)
            &&& final(state)@.filter.on == old(state)@.filter.on
        },
        outcome matches FilterOutcome::InsertFailed(k) ==> final(state)@.filter.active == texts(
            names@,
        ).take(k as int),
        outcome == FilterOutcome::SwitchFailed ==> final(state)@.filter.active == texts(names@),
{
    if outcome is InsertFailed {
        let why = "insert interface filter "@ + names@[outcome->InsertFailed_0 as int]@;
        assert("ERR "@ + why + "\n"@ =~= "ERR "@ + (why + "\n"@));
        lemma_refusal(why + "\n"@);
    } else if outcome == FilterOutcome::SwitchFailed {
        let why = "set FILTER_ON"@;
        assert("ERR "@ + why + "\n"@ =~= "ERR "@ + (why + "\n"@));
        lemma_refusal(why + "\n"@);
    }
}

/// A command that needs an argument is refused without one, and nothing changes; `SET`
/// alone asks for the empty filter.
pub proof fn law_missing_argument_is_refused(state: &mut RuntimeState, line: &str, r: Step)
    requires
        call_ensures(RuntimeState::request, (state, line), r),
        asks(line@, "SINK"@) || asks(line@, "DLT"@) || asks(line@, "TRACK"@) || asks(
            line@,
            "ERRORS"@,
        ) || asks(line@, "PARCEL"@) || asks(line@, "SET"@),
    ensures
        final(state)@ == old(state)@,
        asks(line@, "SET"@) ==> (r matches Step::Filter(names) && names@.len() == 0),
        !asks(line@, "SET"@) ==> refuses(r),
{
    lemma_commands();
    let none = Seq::<char>::empty();
    reveal_strlit(" ");
    reveal_strlit(",");
    reveal_strlit("on");
    reveal_strlit("1");
    reveal_strlit("true");
    reveal_strlit("off");
    reveal_strlit("0");
    reveal_strlit("false");
    reveal_strlit("max");
    reveal_strlit("console");
    reveal_strlit("logcat");
    reveal_strlit("both");
    reveal_strlit("none");
    assert(lower_text(none) =~= none);
    assert forall|j: int| 0 <= j implies !occurs_at(none, " "@, j) by {}
    lemma_find_none(none, " "@, 0);
    assert(split_word(none) == (none, none));
    if asks(line@, "SET"@) {
        lemma_asked(line@, commands()[10]);
        law_one_name_is_listed(none, none, none);
        assert(none + none + none =~= none);
        assert(texts(r->Filter_0@).len() == r->Filter_0@.len());
    } else if asks(line@, "SINK"@) {
        lemma_asked(line@, commands()[3]);
    } else if asks(line@, "DLT"@) {
        lemma_asked(line@, commands()[4]);
    } else if asks(line@, "ERRORS"@) {
        lemma_asked(line@, commands()[5]);
    } else if asks(line@, "PARCEL"@) {
        lemma_asked(line@, commands()[6]);
    } else {
        lemma_asked(line@, commands()[7]);
    }
    reveal_strlit("ERR ");
    reveal_strlit("ERR sink must be console|logcat|both|none\n");
    reveal_strlit("ERR DLT needs on|off\n");
    reveal_strlit("ERR TRACK needs on|off\n");
    reveal_strlit("ERR ERRORS needs on|off\n");
    reveal_strlit("ERR PARCEL needs on|off or max <bytes>\n");
    assert("ERR sink must be console|logcat|both|none\n"@.subrange(0, 4) =~= "ERR "@);
    assert("ERR DLT needs on|off\n"@.subrange(0, 4) =~= "ERR "@);
    assert("ERR TRACK needs on|off\n"@.subrange(0, 4) =~= "ERR "@);
    assert("ERR ERRORS needs on|off\n"@.subrange(0, 4) =~= "ERR "@);
    assert("ERR PARCEL needs on|off or max <bytes>\n"@.subrange(0, 4) =~= "ERR "@);
}

/// A cap that is no number is refused, and nothing changes.
pub proof fn law_cap_must_be_a_number(
    state: &mut RuntimeState,
    line: &str,
    max: Seq<char>,
    arg: Seq<char>,
    r: Step,
)
    requires
        call_ensures(RuntimeState::request, (state, line), r),
        lower_text(max) == "max"@,
        is_solid(arg),
        asks_with(line@, "PARCEL"@, max) || (asks_with(line@, "PARCEL"@, max + " "@ + arg)
            && !is_digit(arg.last())),
    ensures
        final(state)@ == old(state)@,
        refuses(r),
{
    lemma_commands();
    reveal_strlit("max");
    reveal_strlit(" ");
    lemma_letters(max, lower_text(max));
    assert(!max.contains(' ')) by {
        assert("max"@[0] == 'm' && "max"@[1] == 'a' && "max"@[2] == 'x');
        assert(lower_text(max).len() == max.len());
        assert forall|i: int| 0 <= i < max.len() implies #[trigger] max[i] != ' ' by {
            assert(lower_text(max)[i] == lower(max[i]));
        }
    }
    if asks_with(line@, "PARCEL"@, max) {
        lemma_asked_with(line@, commands()[6], max);
        assert forall|j: int| 0 <= j implies !occurs_at(max, " "@, j) by {
            if occurs_at(max, " "@, j) {
                assert(max.subrange(j, j + 1)[0] == max[j]);
            }
        }
        lemma_find_none(max, " "@, 0);
    } else {
        let all = max + " "@ + arg;
        assert(all[0] == max[0] && all.last() == arg.last());
        lemma_asked_with(line@, commands()[6], all);
        lemma_first_char_absent(max, " "@);
        lemma_find_behind(max, " "@, arg);
        lemma_trim_keeps(arg);
        assert(arg.last() == arg[arg.len() - 1]);
        if arg.len() > 1 {
            assert(arg.skip(1)[arg.len() - 2] == arg.last());
        }
    }
    reveal_strlit("ERR ");
    reveal_strlit("ERR PARCEL max needs a byte count\n");
    assert("ERR PARCEL max needs a byte count\n"@.subrange(0, 4) =~= "ERR "@);
}

/// The state tells of itself what its fields say: whether the kernel filters by some
/// interface, and whether an event that is counted passes.
pub proof fn law_state_tells_of_itself(
    state: &mut RuntimeState,
    filtering: bool,
    status: String,
    passes: bool,
)
    requires
        call_ensures(RuntimeState::filtering, (&*old(state),), filtering),
        call_ensures(RuntimeState::count_event, (state,), passes),
    ensures
        filtering == (old(state).filter.on && old(state).filter.active@.len() > 0),
        passes == old(state).capturing,
        final(state)@.captured == (old(state)@.captured + 1) % 0x1_0000_0000_0000_0000,
        final(state)@.emitted == if passes {
            (old(state)@.emitted + 1) % 0x1_0000_0000_0000_0000
        } else {
            old(state)@.emitted as int
        },
        final(state)@ == (StateView {
            captured: final(state)@.captured,
            emitted: final(state)@.emitted,
            ..old(state)@
        }),
{
}

/// What the state is told to do it does only as far as it may: parcel capture is switched on
/// only while the kernel filters, and a cap is never above the ceiling.
pub proof fn law_state_does_what_it_may(
    state: &mut RuntimeState,
    on: bool,
    outcome: Result<(), String>,
    r: Result<(), String>,
    other: &mut RuntimeState,
    bytes: u32,
    cap: Result<u32, String>,
)
    requires
        call_ensures(RuntimeState::set_parcel, (state, on, outcome), r),
        call_ensures(RuntimeState::set_parcel_max, (other, bytes, outcome), cap),
    ensures
        r is Ok <==> outcome is Ok && (on ==> old(state)@.filter.on && old(
            state)@.filter.active.len() > 0),
        r is Ok ==> final(state)@ == (StateView { parcel_on: on, ..old(state)@ }),
        r is Err ==> final(state)@ == old(state)@,
        cap is Ok <==> outcome is Ok,
        cap matches Ok(n) ==> {
            &&& n <= 30720 && n <= bytes
            &&& n == 30720 || n == bytes
            &&& final(other)@ == (StateView { parcel_max: n, ..old(other)@ })
        },
        cap is Err ==> final(other)@ == old(other)@,
{
}

/// The status by itself is what `STATUS` replies.
pub proof fn law_status_is_the_reply(
    state: &mut RuntimeState,
    line: &str,
    r: Step,
    status: String,
)
    requires
        call_ensures(RuntimeState::request, (state, line), r),
        says(line@, "STATUS"@),
        call_ensures(RuntimeState::status, (&*old(state),), status),
    ensures
        replies(r, status@),
{
    lemma_commands();
    lemma_said(line@, commands()[0]);
}

/// A word switches on or off in any case, and any other word does not switch; a cap is the
/// number that is asked for, up to the ceiling.
pub proof fn law_words_and_caps(word: &[char], r: Option<bool>, bytes: u32, cap: u32)
    requires
        call_ensures(on_off, (word,), r),
        call_ensures(clamp_cap, (bytes,), cap),
    ensures
        switches(word@, true) ==> r == Some(true),
        switches(word@, false) ==> r == Some(false),
        !switches(word@, true) && !switches(word@, false) ==> r is None,
        bytes <= 30720 ==> cap == bytes,
        bytes > 30720 ==> cap == 30720,
{
    if switches(word@, true) {
        lemma_switches(word@, true);
    }
    if switches(word@, false) {
        lemma_switches(word@, false);
    }
}

} // verus!
