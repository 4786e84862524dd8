//! Command lines: the consumer's options and the decoder's arguments.

use crate::control::{clamp_cap, clamped, is_bounded, is_filtering, RuntimeState, StateView};
use crate::event::{PARCEL_CAP_DEFAULT, PARCEL_CEILING};
use crate::filter::{listed, push_listed, FilterCtl};
use crate::observed::Observed;
use crate::sink::{sink_named, Sink};
use crate::text::{
    chars_of, occurs_at, parse_unsigned, read_unsigned, same_text, starts_with, text_of,
    text_of_str, texts,
};
use vstd::prelude::*;

verus! {

/// Port of the control channel, where none is given.
pub const CONTROL_PORT: u16 = 3491;

/// Port of the DLT server, where none is given.
pub const DLT_PORT: u16 = 3490;

/// The first position at or after `i` at which `flag` stands.
pub open spec fn position_from(args: Seq<Seq<char>>, flag: Seq<char>, i: int) -> Option<int>
    decreases args.len() - i,
{
    if i < 0 || i >= args.len() {
        None
    } else if args[i] == flag {
        Some(i)
    } else {
        position_from(args, flag, i + 1)
    }
}

/// Whether `flag` is given.
pub open spec fn has_flag(args: Seq<Seq<char>>, flag: Seq<char>) -> bool {
    position_from(args, flag, 0) is Some
}

/// What follows the first `flag`.
pub open spec fn value_of(args: Seq<Seq<char>>, flag: Seq<char>) -> Option<Seq<char>> {
    match position_from(args, flag, 0) {
        Some(i) => if i + 1 < args.len() {
            Some(args[i + 1])
        } else {
            None
        },
        None => None,
    }
}

/// Whether a flag that may be bare or take a value is on: it is given, and not followed
/// by a word that switches it off.
pub open spec fn is_on(args: Seq<Seq<char>>, flag: Seq<char>) -> bool {
    has_flag(args, flag) && match value_of(args, flag) {
        Some(v) => v != "off"@ && v != "false"@ && v != "0"@,
        None => true,
    }
}

/// The number of at most `max` that follows `flag`, where one does.
pub open spec fn number_of(args: Seq<Seq<char>>, flag: Seq<char>, max: nat) -> Option<nat> {
    match value_of(args, flag) {
        Some(v) => parse_unsigned(v, max),
        None => None,
    }
}

/// The port that follows `flag`, or `default`.
pub open spec fn port_of(args: Seq<Seq<char>>, flag: Seq<char>, default: u16) -> u16 {
    match number_of(args, flag, u16::MAX as nat) {
        Some(port) => port as u16,
        None => default,
    }
}

/// The interfaces asked for from position `i` on: each `--iface` takes the argument
/// behind it, a comma-separated list.
pub open spec fn ifaces_from(args: Seq<Seq<char>>, i: int) -> Seq<Seq<char>>
    decreases args.len() - i,
{
    if i < 0 || i >= args.len() {
        seq![]
    } else if args[i] == "--iface"@ {
        if i + 1 < args.len() {
            listed(args[i + 1]) + ifaces_from(args, i + 2)
        } else {
            seq![]
        }
    } else {
        ifaces_from(args, i + 1)
    }
}

/// The sink asked for; the console where none is, or none of that name.
pub open spec fn sink_of(args: Seq<Seq<char>>) -> Sink {
    match value_of(args, "--sink"@) {
        Some(name) => match sink_named(name) {
            Some(sink) => sink,
            None => Sink::Console,
        },
        None => Sink::Console,
    }
}

/// The first position at which `flag` stands.
pub fn flag_position(args: &[String], flag: &str) -> (r: Option<usize>)
    ensures
        match r {
            Some(i) => i < args@.len() && position_from(texts(args@), flag@, 0) == Some(i as int),
            None => position_from(texts(args@), flag@, 0) is None,
        },
{
    let mut i: usize = 0;
    while i < args.len()
        invariant
            i <= args@.len(),
            position_from(texts(args@), flag@, 0) == position_from(
                texts(args@),
                flag@,
                i as int,
            ),
        decreases args@.len() - i,
    {
        assert(texts(args@)[i as int] == args@[i as int]@);
        if same_text(&args[i], flag) {
            return Some(i);
        }
        i += 1;
    }
    None
}

/// The value following `flag` in the arguments, if present (`--flag value`).
pub fn arg_value<'a>(args: &'a [String], flag: &str) -> (r: Option<&'a str>)
    ensures
        match (r, value_of(texts(args@), flag@)) {
            (Some(s), Some(v)) => s@ == v,
            (None, None) => true,
            _ => false,
        },
{
    match flag_position(args, flag) {
        Some(i) => if i < args.len() - 1 {
            assert(texts(args@)[i + 1] == args@[i + 1]@);
            Some(args[i + 1].as_str())
        } else {
            None
        },
        None => None,
    }
}

/// Parses a boolean flag that may be bare or take an explicit `on` or `off` value.
/// Absent gives false; bare or a truthy value gives true; `off`, `false` and `0` give
/// false.
pub fn flag_on_off(args: &[String], flag: &str) -> (r: bool)
    ensures
        r == is_on(texts(args@), flag@),
{
    match flag_position(args, flag) {
        Some(_) => match arg_value(args, flag) {
            Some(v) => !same_text(v, "off") && !same_text(v, "false") && !same_text(v, "0"),
            None => true,
        },
        None => false,
    }
}

/// The number of at most `max` that follows `flag`, where one does.
fn arg_number(args: &[String], flag: &str, max: u32) -> (r: Option<u32>)
    ensures
        match (r, number_of(texts(args@), flag@, max as nat)) {
            (Some(n), Some(v)) => n == v && n <= max,
            (None, None) => true,
            _ => false,
        },
{
    match arg_value(args, flag) {
        Some(v) => {
            let c: Vec<char> = chars_of(v);
            read_unsigned(&c, max)
        },
        None => None,
    }
}

/// The port that follows `flag`, or `default`.
fn arg_port(args: &[String], flag: &str, default: u16) -> (r: u16)
    ensures
        r == port_of(texts(args@), flag@, default),
{
    match arg_number(args, flag, u16::MAX as u32) {
        Some(n) => n as u16,
        None => default,
    }
}

/// All interface names requested via `--iface`. Repeatable and comma-separated; blanks
/// are ignored.
pub fn iface_filters(args: &[String]) -> (r: Vec<String>)
    ensures
        texts(r@) == ifaces_from(texts(args@), 0),
{
    let mut out: Vec<String> = Vec::new();
    let ghost all = texts(args@);
    let mut i: usize = 0;
    assert(texts(out@) + ifaces_from(all, 0) =~= ifaces_from(all, 0));
    while i < args.len()
        invariant
            i <= args@.len(),
            all == texts(args@),
            texts(out@) + ifaces_from(all, i as int) == ifaces_from(all, 0),
        decreases args@.len() - i,
    {
        let ghost before = texts(out@);
        assert(all[i as int] == args@[i as int]@);
        if same_text(&args[i], "--iface") {
            if i + 1 >= args.len() {
                assert(texts(out@) =~= ifaces_from(all, 0));
                return out;
            }
            let c: Vec<char> = chars_of(&args[i + 1]);
            push_listed(&mut out, &c);
            assert(all[i + 1] == args@[i + 1]@);
            assert(texts(out@) + ifaces_from(all, i + 2) =~= before + ifaces_from(all, i as int));
            i += 2;
        } else {
            i += 1;
        }
    }
    assert(texts(out@) =~= ifaces_from(all, 0));
    out
}

impl Sink {
    /// The sink asked for with `--sink`.
    pub fn parse(args: &[String]) -> (r: Self)
        ensures
            r == sink_of(texts(args@)),
    {
        match arg_value(args, "--sink") {
            Some(name) => match Sink::from_name(name) {
                Some(sink) => sink,
                None => Sink::Console,
            },
            None => Sink::Console,
        }
    }
}

/// What the consumer was asked to do.
pub struct Options {
    /// Print the version and exit.
    pub version: bool,
    /// The text sink.
    pub sink: Sink,
    /// The file to write JSON objects to.
    pub jsonl: Option<String>,
    /// The port of the control channel, where it is asked for.
    pub control_port: Option<u16>,
    /// Whether the DLT server was asked for by itself, and not only by the control channel.
    pub dlt_explicit: bool,
    /// The port of the DLT server.
    pub dlt_port: u16,
    /// The interfaces to keep; all where there is none.
    pub ifaces: Vec<String>,
    /// Whether to capture errors.
    pub errors: bool,
    /// Whether to keep normal replies.
    pub include_replies: bool,
    /// Whether parcel capture was asked for.
    pub parcel_requested: bool,
    /// Whether parcel capture is on: it is only honoured with an interface filter.
    pub parcel_enabled: bool,
    /// The cap on captured payload.
    pub parcel_cap: u32,
}

/// The cap on captured payload that is asked for, clamped to the ceiling.
pub open spec fn cap_of(args: Seq<Seq<char>>) -> u32 {
    clamped(
        match number_of(args, "--parcel-max"@, u32::MAX as nat) {
            Some(n) => n as u32,
            None => PARCEL_CAP_DEFAULT,
        },
    )
}

/// The port of the control channel, where it is asked for.
pub open spec fn control_port_of(args: Seq<Seq<char>>) -> Option<u16> {
    if has_flag(args, "--control"@) {
        Some(port_of(args, "--control"@, CONTROL_PORT))
    } else {
        None
    }
}

impl Options {
    /// Whether a DLT server is to be bound: it was asked for, or the control channel is
    /// there to switch it on.
    pub open spec fn serves_dlt(&self) -> bool {
        self.dlt_explicit || self.control_port is Some
    }

    /// Reads the arguments of the consumer.
    pub fn parse(args: &[String]) -> (r: Self)
        ensures
            ({
                let a = texts(args@);
                &&& r.version == (has_flag(a, "--version"@) || has_flag(a, "-V"@))
                &&& r.sink == sink_of(a)
                &&& text_of(r.jsonl) == value_of(a, "--jsonl"@)
                &&& r.control_port == control_port_of(a)
                &&& r.dlt_explicit == has_flag(a, "--dlt-serve"@)
                &&& r.dlt_port == port_of(a, "--dlt-serve"@, DLT_PORT)
                &&& texts(r.ifaces@) == ifaces_from(a, 0)
                &&& r.errors == is_on(a, "--errors"@)
                &&& r.include_replies == has_flag(a, "--include-replies"@)
                &&& r.parcel_requested == is_on(a, "--parcel"@)
                &&& r.parcel_enabled == (r.parcel_requested && r.ifaces@.len() > 0)
                &&& r.parcel_cap == cap_of(a)
                &&& r.parcel_cap <= PARCEL_CEILING
            }),
    {
        let ifaces: Vec<String> = iface_filters(args);
        let parcel_requested: bool = flag_on_off(args, "--parcel");
        let parcel_enabled: bool = parcel_requested && ifaces.len() > 0;
        let control_port: Option<u16> = if flag_position(args, "--control").is_some() {
            Some(arg_port(args, "--control", CONTROL_PORT))
        } else {
            None
        };
        let cap: u32 = match arg_number(args, "--parcel-max", u32::MAX) {
            Some(n) => n,
            None => PARCEL_CAP_DEFAULT,
        };
        let jsonl: Option<String> = match arg_value(args, "--jsonl") {
            Some(path) => Some(text_of_str(path)),
            None => None,
        };
        Options {
            version: flag_position(args, "--version").is_some() || flag_position(
                args,
                "-V",
            ).is_some(),
            sink: Sink::parse(args),
            jsonl,
            control_port,
            dlt_explicit: flag_position(args, "--dlt-serve").is_some(),
            dlt_port: arg_port(args, "--dlt-serve", DLT_PORT),
            ifaces,
            errors: flag_on_off(args, "--errors"),
            include_replies: flag_position(args, "--include-replies").is_some(),
            parcel_requested,
            parcel_enabled,
            parcel_cap: clamp_cap(cap),
        }
    }

    /// Tells whether a DLT server is to be bound.
    pub fn wants_dlt(&self) -> (r: bool)
        ensures
            r == self.serves_dlt(),
    {
        self.dlt_explicit || self.control_port.is_some()
    }

    /// The state that the consumer starts in, once the startup filter `filter` is set:
    /// capture on, discovery off, DLT streaming on where the server was asked for.
    pub fn initial_state(&self, filter: FilterCtl) -> (r: RuntimeState)
        ensures
            r.wf(),
            r@ == (StateView {
                capturing: true,
                discovering: false,
                sink: self.sink,
                dlt_on: self.dlt_explicit,
                errors_on: self.errors,
                parcel_on: self.parcel_enabled,
                parcel_max: self.parcel_cap,
                dlt_port: if self.serves_dlt() {
                    self.dlt_port
                } else {
                    0
                },
                captured: 0,
                emitted: 0,
                observed: seq![],
                filter: filter@,
            }),
            (self.parcel_enabled ==> is_filtering(filter@)) && self.parcel_cap <= PARCEL_CEILING
                ==> is_bounded(r@),
    {
        RuntimeState {
            capturing: true,
            discovering: false,
            sink: self.sink,
            dlt_on: self.dlt_explicit,
            errors_on: self.errors,
            parcel_on: self.parcel_enabled,
            parcel_max: self.parcel_cap,
            dlt_port: if self.wants_dlt() {
                self.dlt_port
            } else {
                0
            },
            captured: 0,
            emitted: 0,
            observed: Observed::new(),
            filter,
        }
    }
}

/// What the decoder was asked to do.
#[derive(Debug)]
pub enum DecodeCommand {
    /// Decode the files (standard input where there is none) by the catalog.
    Run { catalog: String, files: Vec<String> },
    /// Show the usage.
    Help,
    /// `--catalog` lacks its path.
    NoPath,
    /// A flag that there is not.
    UnknownFlag(String),
    /// No catalog is given.
    NoCatalog,
}

/// What a [`DecodeCommand`] says.
pub enum CommandView {
    Run { catalog: Seq<char>, files: Seq<Seq<char>> },
    Help,
    NoPath,
    UnknownFlag(Seq<char>),
    NoCatalog,
}

impl View for DecodeCommand {
    type V = CommandView;

    open spec fn view(&self) -> CommandView {
        match *self {
            DecodeCommand::Run { catalog, files } => CommandView::Run {
                catalog: catalog@,
                files: texts(files@),
            },
            DecodeCommand::Help => CommandView::Help,
            DecodeCommand::NoPath => CommandView::NoPath,
            DecodeCommand::UnknownFlag(flag) => CommandView::UnknownFlag(flag@),
            DecodeCommand::NoCatalog => CommandView::NoCatalog,
        }
    }
}

/// Whether an argument is a flag: it starts with a dash and is more than one.
pub open spec fn is_flag(arg: Seq<char>) -> bool {
    occurs_at(arg, "-"@, 0) && arg != "-"@
}

/// The command that the arguments from position `i` on make, where `catalog` and `files`
/// were given before.
pub open spec fn command_from(
    args: Seq<Seq<char>>,
    i: int,
    catalog: Option<Seq<char>>,
    files: Seq<Seq<char>>,
) -> CommandView
    decreases args.len() - i,
{
    if i < 0 || i >= args.len() {
        match catalog {
            Some(catalog) => CommandView::Run { catalog, files },
            None => CommandView::NoCatalog,
        }
    } else if args[i] == "--catalog"@ || args[i] == "-c"@ {
        if i + 1 < args.len() {
            command_from(args, i + 2, Some(args[i + 1]), files)
        } else {
            CommandView::NoPath
        }
    } else if args[i] == "-h"@ || args[i] == "--help"@ {
        CommandView::Help
    } else if is_flag(args[i]) {
        CommandView::UnknownFlag(args[i])
    } else {
        command_from(args, i + 1, catalog, files.push(args[i]))
    }
}

impl DecodeCommand {
    /// Reads the arguments of the decoder, the first of which names the program.
    pub fn parse(args: &[String]) -> (r: Self)
        ensures
            r@ == command_from(texts(args@), 1, None, seq![]),
    {
        let ghost all = texts(args@);
        let ghost goal = command_from(all, 1, None, seq![]);
        let mut catalog: Option<String> = None;
        let mut files: Vec<String> = Vec::new();
        let mut i: usize = 1;
        assert(texts(files@) =~= Seq::<Seq<char>>::empty());
        while i < args.len()
            invariant
                1 <= i,
                all == texts(args@),
                goal == command_from(all, 1, None, seq![]),
                command_from(all, i as int, text_of(catalog), texts(files@)) == goal,
            decreases args@.len() - i,
        {
            assert(all[i as int] == args@[i as int]@);
            let arg: &str = &args[i];
            if same_text(arg, "--catalog") || same_text(arg, "-c") {
                if i + 1 >= args.len() {
                    return DecodeCommand::NoPath;
                }
                assert(all[i + 1] == args@[i + 1]@);
                catalog = Some(args[i + 1].clone());
                i += 2;
            } else if same_text(arg, "-h") || same_text(arg, "--help") {
                return DecodeCommand::Help;
            } else {
                let c: Vec<char> = chars_of(arg);
                if starts_with(&c, "-") && !same_text(arg, "-") {
                    return DecodeCommand::UnknownFlag(text_of_str(arg));
                }
                let ghost before = files@;
                files.push(args[i].clone());
                assert(texts(files@) =~= texts(before).push(all[i as int]));
                i += 1;
            }
        }
        match catalog {
            Some(catalog) => DecodeCommand::Run { catalog, files },
            None => DecodeCommand::NoCatalog,
        }
    }
}

} // verus!
