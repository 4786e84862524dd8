//! Laws of the command lines.

use crate::control::RuntimeState;
use crate::filter::{listed, FilterCtl};
use crate::options::{
    arg_value, command_from, flag_on_off, has_flag, iface_filters, ifaces_from, is_flag,
    position_from, CommandView, DecodeCommand, Options,
};
use crate::sink::Sink;
use crate::text::{decimal, is_digit, law_decimal_round_trip, parse_unsigned, text_of, texts};
use vstd::prelude::*;

verus! {

/// Whether `flag` first stands at `i`.
pub open spec fn first_at(args: Seq<Seq<char>>, flag: Seq<char>, i: int) -> bool {
    0 <= i < args.len() && args[i] == flag && forall|j: int| 0 <= j < i ==> #[trigger] args[j]
        != flag
}

proof fn lemma_position(args: Seq<Seq<char>>, flag: Seq<char>, from: int, i: int)
    requires
        first_at(args, flag, i),
        0 <= from <= i,
    ensures
        position_from(args, flag, from) == Some(i),
    decreases i - from,
{
    if from < i {
        assert(args[from] != flag);
        lemma_position(args, flag, from + 1, i);
    }
}

proof fn lemma_no_position(args: Seq<Seq<char>>, flag: Seq<char>, from: int)
    requires
        0 <= from,
        !args.contains(flag),
    ensures
        position_from(args, flag, from) is None,
    decreases args.len() - from,
{
    if from < args.len() {
        assert(args[from] != flag);
        lemma_no_position(args, flag, from + 1);
    }
}

proof fn lemma_first(args: Seq<Seq<char>>, flag: Seq<char>, n: int) -> (i: int)
    requires
        0 <= n < args.len(),
        args[n] == flag,
    ensures
        first_at(args, flag, i),
    decreases n,
{
    if exists|j: int| 0 <= j < n && args[j] == flag {
        let j = choose|j: int| 0 <= j < n && args[j] == flag;
        lemma_first(args, flag, j)
    } else {
        n
    }
}

/// A flag is there exactly where it is one of the arguments.
proof fn lemma_has_flag(args: Seq<Seq<char>>, flag: Seq<char>)
    ensures
        has_flag(args, flag) == args.contains(flag),
{
    if args.contains(flag) {
        let n = choose|n: int| 0 <= n < args.len() && args[n] == flag;
        let i = lemma_first(args, flag, n);
        lemma_position(args, flag, 0, i);
    } else {
        lemma_no_position(args, flag, 0);
    }
}

/// The value of a flag is the argument behind the first one; a flag that is not there, or
/// is the last argument, has none.
pub proof fn law_value_follows_the_flag(args: &[String], flag: &str, i: int, r: Option<&str>)
    requires
        call_ensures(arg_value, (args, flag), r),
    ensures
        first_at(texts(args@), flag@, i) && i + 1 < args@.len() ==> r is Some && r->0@
            == args@[i + 1]@,
        first_at(texts(args@), flag@, i) && i + 1 == args@.len() ==> r is None,
        !texts(args@).contains(flag@) ==> r is None,
{
    let a = texts(args@);
    if first_at(a, flag@, i) {
        lemma_position(a, flag@, 0, i);
        if i + 1 < a.len() {
            assert(a[i + 1] == args@[i + 1]@);
        }
    }
    if !a.contains(flag@) {
        lemma_no_position(a, flag@, 0);
    }
}

/// A switch is on where it is given, unless the word behind it is `off`, `false` or `0`.
pub proof fn law_switch_is_on_where_given(args: &[String], flag: &str, i: int, r: bool)
    requires
        call_ensures(flag_on_off, (args, flag), r),
    ensures
        first_at(texts(args@), flag@, i) && i + 1 == args@.len() ==> r,
        first_at(texts(args@), flag@, i) && i + 1 < args@.len() ==> r == !(args@[i + 1]@ == "off"@
            || args@[i + 1]@ == "false"@ || args@[i + 1]@ == "0"@),
        !texts(args@).contains(flag@) ==> !r,
{
    let a = texts(args@);
    if first_at(a, flag@, i) {
        lemma_position(a, flag@, 0, i);
        if i + 1 < a.len() {
            assert(a[i + 1] == args@[i + 1]@);
        }
    }
    if !a.contains(flag@) {
        lemma_no_position(a, flag@, 0);
    }
}

proof fn lemma_ifaces_shift(p: Seq<Seq<char>>, args: Seq<Seq<char>>, i: int)
    requires
        0 <= i,
    ensures
        ifaces_from(p + args, p.len() + i) == ifaces_from(args, i),
    decreases args.len() - i,
{
    if i < args.len() {
        assert((p + args)[p.len() + i] == args[i]);
        if i + 1 < args.len() {
            assert((p + args)[p.len() + i + 1] == args[i + 1]);
            lemma_ifaces_shift(p, args, i + 2);
        }
        lemma_ifaces_shift(p, args, i + 1);
    }
}

/// Each `--iface` adds the names of the list behind it, in the order given; no other
/// argument adds any.
pub proof fn law_interfaces_add_up(args: &[String], rest: Seq<Seq<char>>, r: Vec<String>)
    requires
        call_ensures(iface_filters, (args,), r),
    ensures
        args@.len() >= 2 && args@[0]@ == "--iface"@ && rest == texts(args@).skip(2) ==> texts(r@)
            == listed(args@[1]@) + ifaces_from(rest, 0),
        args@.len() >= 1 && args@[0]@ != "--iface"@ && rest == texts(args@).skip(1) ==> texts(r@)
            == ifaces_from(rest, 0),
        args@.len() == 0 ==> r@.len() == 0,
        args@.len() == 1 ==> r@.len() == 0,
{
    let a = texts(args@);
    assert(texts(r@).len() == r@.len());
    if a.len() >= 1 {
        assert(a[0] == args@[0]@);
        assert(a =~= a.take(1) + a.skip(1));
        lemma_ifaces_shift(a.take(1), a.skip(1), 0);
    }
    if a.len() >= 2 {
        assert(a[1] == args@[1]@);
        assert(a =~= a.take(2) + a.skip(2));
        lemma_ifaces_shift(a.take(2), a.skip(2), 0);
    }
}

/// A flag that is given switches its option, wherever it stands, and one that is not leaves
/// it off.
pub proof fn law_flags_are_options(args: &[String], r: Options)
    requires
        call_ensures(Options::parse, (args,), r),
    ensures
        r.version == (texts(args@).contains("--version"@) || texts(args@).contains("-V"@)),
        r.include_replies == texts(args@).contains("--include-replies"@),
        r.dlt_explicit == texts(args@).contains("--dlt-serve"@),
        r.control_port is Some <==> texts(args@).contains("--control"@),
        !texts(args@).contains("--jsonl"@) ==> r.jsonl is None,
        !texts(args@).contains("--errors"@) ==> !r.errors,
        !texts(args@).contains("--parcel"@) ==> !r.parcel_requested,
        r.parcel_enabled == (r.parcel_requested && r.ifaces@.len() > 0),
        !texts(args@).contains("--sink"@) ==> r.sink == Sink::Console,
        !texts(args@).contains("--parcel-max"@) ==> r.parcel_cap == 256,
        !texts(args@).contains("--dlt-serve"@) ==> r.dlt_port == 3490,
        texts(r.ifaces@) == ifaces_from(texts(args@), 0),
{
    let a = texts(args@);
    lemma_has_flag(a, "--version"@);
    lemma_has_flag(a, "-V"@);
    lemma_has_flag(a, "--include-replies"@);
    lemma_has_flag(a, "--dlt-serve"@);
    lemma_has_flag(a, "--control"@);
    lemma_has_flag(a, "--jsonl"@);
    lemma_has_flag(a, "--errors"@);
    lemma_has_flag(a, "--parcel"@);
    lemma_has_flag(a, "--sink"@);
    lemma_has_flag(a, "--parcel-max"@);
}

/// The argument behind a flag is its value: a path, a sink by its name, a port or a cap by
/// its number, the cap as far as the ceiling goes.
pub proof fn law_values_are_options(args: &[String], i: int, n: u32, r: Options)
    requires
        call_ensures(Options::parse, (args,), r),
        0 <= i,
        i + 1 < args@.len(),
    ensures
        ({
            let a = texts(args@);
            let v = args@[i + 1]@;
            &&& first_at(a, "--jsonl"@, i) ==> r.jsonl is Some && r.jsonl->0@ == v
            &&& first_at(a, "--sink"@, i) && v == "console"@ ==> r.sink == Sink::Console
            &&& first_at(a, "--sink"@, i) && v == "logcat"@ ==> r.sink == Sink::Logcat
            &&& first_at(a, "--sink"@, i) && v == "both"@ ==> r.sink == Sink::Both
            &&& first_at(a, "--sink"@, i) && v == "none"@ ==> r.sink == Sink::Quiet
            &&& first_at(a, "--dlt-serve"@, i) && v == decimal(n as nat) ==> r.dlt_port == (
            if n <= 65535 {
                n as u16
            } else {
                3490
            })
            &&& first_at(a, "--control"@, i) && v == decimal(n as nat) ==> r.control_port == Some(
                if n <= 65535 {
                    n as u16
                } else {
                    3491u16
                },
            )
            &&& first_at(a, "--parcel-max"@, i) && v == decimal(n as nat) ==> r.parcel_cap == (
            if n <= 30720 {
                n
            } else {
                30720
            })
            &&& first_at(a, "--errors"@, i) ==> r.errors == !(v == "off"@ || v == "false"@ || v
                == "0"@)
            &&& first_at(a, "--parcel"@, i) ==> r.parcel_requested == !(v == "off"@ || v
                == "false"@ || v == "0"@)
        }),
{
    let a = texts(args@);
    let v = args@[i + 1]@;
    assert(a[i + 1] == v);
    reveal_strlit("console");
    reveal_strlit("logcat");
    reveal_strlit("both");
    reveal_strlit("none");
    assert("console"@[0] == 'c' && "logcat"@[0] == 'l' && "both"@[0] == 'b' && "none"@[0] == 'n');
    lemma_number(n as nat, 65535);
    lemma_number(n as nat, u32::MAX as nat);
    if first_at(a, "--jsonl"@, i) {
        lemma_position(a, "--jsonl"@, 0, i);
        assert(text_of(r.jsonl) == Some(v));
    }
    if first_at(a, "--sink"@, i) {
        lemma_position(a, "--sink"@, 0, i);
    }
    if first_at(a, "--dlt-serve"@, i) {
        lemma_position(a, "--dlt-serve"@, 0, i);
    }
    if first_at(a, "--control"@, i) {
        lemma_position(a, "--control"@, 0, i);
    }
    if first_at(a, "--parcel-max"@, i) {
        lemma_position(a, "--parcel-max"@, 0, i);
    }
    if first_at(a, "--errors"@, i) {
        lemma_position(a, "--errors"@, 0, i);
    }
    if first_at(a, "--parcel"@, i) {
        lemma_position(a, "--parcel"@, 0, i);
    }
}

proof fn lemma_number(n: nat, max: nat)
    ensures
        parse_unsigned(decimal(n), max) == if n <= max {
            Some(n)
        } else {
            None
        },
{
    law_decimal_round_trip(n, n);
}

/// The consumer starts as it was asked to: capturing, with nothing counted and nothing
/// observed, and each option as it was given; it has a DLT port where a server is bound.
pub proof fn law_start_is_as_asked(o: &Options, filter: FilterCtl, r: RuntimeState)
    requires
        call_ensures(Options::initial_state, (o, filter), r),
    ensures
        r.capturing && !r.discovering,
        r.sink == o.sink,
        r.dlt_on == o.dlt_explicit,
        r.errors_on == o.errors,
        r.parcel_on == o.parcel_enabled,
        r.parcel_max == o.parcel_cap,
        r.dlt_port == (if o.dlt_explicit || o.control_port is Some {
            o.dlt_port
        } else {
            0
        }),
        r.captured == 0 && r.emitted == 0,
        r@.observed.len() == 0,
        r@.filter == filter@,
{
    let v = r@;
}

/// Whether none of these is a flag.
pub open spec fn are_files(files: Seq<Seq<char>>) -> bool {
    forall|i: int|
        0 <= i < files.len() ==> (#[trigger] files[i]) == "-"@ || files[i].len() == 0
            || files[i][0] != '-'
}

proof fn lemma_files(
    args: Seq<Seq<char>>,
    from: int,
    to: int,
    catalog: Option<Seq<char>>,
    files: Seq<Seq<char>>,
)
    requires
        0 <= from <= to <= args.len(),
        are_files(args.subrange(from, to)),
    ensures
        command_from(args, from, catalog, files) == command_from(
            args,
            to,
            catalog,
            files + args.subrange(from, to),
        ),
    decreases to - from,
{
    let part = args.subrange(from, to);
    if from < to {
        reveal_strlit("-");
        reveal_strlit("--catalog");
        reveal_strlit("-c");
        reveal_strlit("-h");
        reveal_strlit("--help");
        let f = args[from];
        assert(part[0] == f);
        assert(f == "-"@ || f.len() == 0 || f[0] != '-');
        assert("--catalog"@[0] == '-' && "-c"@[0] == '-' && "-h"@[0] == '-' && "--help"@[0] == '-');
        assert(!is_flag(f)) by {
            if is_flag(f) {
                assert(f.subrange(0, 1)[0] == '-');
            }
        }
        let rest = args.subrange(from + 1, to);
        assert forall|i: int| 0 <= i < rest.len() implies (#[trigger] rest[i]) == "-"@
            || rest[i].len() == 0 || rest[i][0] != '-' by {
            assert(rest[i] == part[i + 1]);
        }
        lemma_files(args, from + 1, to, catalog, files.push(f));
        assert(files.push(f) + rest =~= files + part);
    } else {
        assert(files + part =~= files);
    }
}

/// The decoder takes the catalog behind its flag, and every other argument as a file, in
/// their order, whether they stand before the flag or behind it.
pub proof fn law_decoder_takes_catalog_and_files(
    args: &[String],
    program: Seq<char>,
    before: Seq<Seq<char>>,
    flag: Seq<char>,
    path: Seq<char>,
    after: Seq<Seq<char>>,
    r: DecodeCommand,
)
    requires
        call_ensures(DecodeCommand::parse, (args,), r),
        flag == "--catalog"@ || flag == "-c"@,
        are_files(before),
        are_files(after),
        texts(args@) == seq![program] + before + seq![flag, path] + after,
    ensures
        r@ == (CommandView::Run { catalog: path, files: before + after }),
{
    let a = texts(args@);
    let at = 1 + before.len() as int;
    assert(a.subrange(1, at) =~= before);
    lemma_files(a, 1, at, None, seq![]);
    assert(Seq::<Seq<char>>::empty() + before =~= before);
    assert(a[at] == flag && a[at + 1] == path);
    let end = a.len() as int;
    assert(a.subrange(at + 2, end) =~= after);
    lemma_files(a, at + 2, end, Some(path), before);
}

/// The decoder asks for what it lacks: a catalog where none is given, its path where the
/// flag is the last argument; it shows its usage where that is asked for, and refuses any
/// other flag.
pub proof fn law_decoder_tells_what_is_wrong(
    args: &[String],
    program: Seq<char>,
    before: Seq<Seq<char>>,
    flag: Seq<char>,
    after: Seq<Seq<char>>,
    r: DecodeCommand,
)
    requires
        call_ensures(DecodeCommand::parse, (args,), r),
        are_files(before),
    ensures
        texts(args@) == seq![program] + before ==> r@ == CommandView::NoCatalog,
        texts(args@) == seq![program] + before + seq![flag] && (flag == "--catalog"@ || flag
            == "-c"@) ==> r@ == CommandView::NoPath,
        texts(args@) == seq![program] + before + seq![flag] + after && (flag == "--help"@ || flag
            == "-h"@) ==> r@ == CommandView::Help,
        texts(args@) == seq![program] + before + seq![flag] + after && flag.len() > 1 && flag[0]
            == '-' && flag != "--catalog"@ && flag != "-c"@ && flag != "--help"@ && flag != "-h"@
            ==> r@ == CommandView::UnknownFlag(flag),
{
    let a = texts(args@);
    let at = 1 + before.len() as int;
    reveal_strlit("-");
    reveal_strlit("--catalog");
    reveal_strlit("-c");
    reveal_strlit("-h");
    reveal_strlit("--help");
    assert("-c"@[1] == 'c' && "-h"@[1] == 'h');
    if a == seq![program] + before || a == seq![program] + before + seq![flag] || a
        == seq![program] + before + seq![flag] + after {
        assert(a.subrange(1, at) =~= before);
        lemma_files(a, 1, at, None, seq![]);
        if flag.len() > 1 && flag[0] == '-' {
            assert(flag.subrange(0, 1) =~= "-"@);
            assert(is_flag(flag));
        }
        if a.len() > at {
            assert(a[at] == flag);
        }
    }
}

/// A DLT server is bound where it was asked for, and where the control channel is there to
/// switch it on.
pub proof fn law_dlt_is_served(o: &Options, r: bool)
    requires
        call_ensures(Options::wants_dlt, (o,), r),
    ensures
        r == (o.dlt_explicit || o.control_port is Some),
{
}

/// What is no number or no name of a sink leaves the option as it is without: the ports and
/// the cap at their defaults, the sink at the console.
pub proof fn law_unusable_values_are_passed_over(args: &[String], i: int, r: Options)
    requires
        call_ensures(Options::parse, (args,), r),
        0 <= i,
        i + 1 < args@.len(),
        args@[i + 1]@.len() > 0,
        !is_digit(args@[i + 1]@.last()),
    ensures
        ({
            let a = texts(args@);
            let v = args@[i + 1]@;
            &&& first_at(a, "--dlt-serve"@, i) ==> r.dlt_port == 3490
            &&& first_at(a, "--control"@, i) ==> r.control_port == Some(3491u16)
            &&& first_at(a, "--parcel-max"@, i) ==> r.parcel_cap == 256
            &&& first_at(a, "--sink"@, i) && v != "console"@ && v != "logcat"@ && v != "both"@ && v
                != "none"@ ==> r.sink == Sink::Console
        }),
{
    let a = texts(args@);
    let v = args@[i + 1]@;
    assert(a[i + 1] == v);
    assert(v.last() == v[v.len() - 1]);
    if v.len() > 1 {
        assert(v.skip(1)[v.len() - 2] == v.last());
    }
    assert(parse_unsigned(v, 65535) is None && parse_unsigned(v, u32::MAX as nat) is None);
    if first_at(a, "--dlt-serve"@, i) {
        lemma_position(a, "--dlt-serve"@, 0, i);
    }
    if first_at(a, "--control"@, i) {
        lemma_position(a, "--control"@, 0, i);
    }
    if first_at(a, "--parcel-max"@, i) {
        lemma_position(a, "--parcel-max"@, 0, i);
    }
    if first_at(a, "--sink"@, i) {
        lemma_position(a, "--sink"@, 0, i);
    }
}

} // verus!
