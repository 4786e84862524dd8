//! Where the human-readable transaction lines go.

use crate::text::same_text;
use vstd::prelude::*;

verus! {

/// Destination for the human-readable transaction lines.
#[derive(Clone, Copy, PartialEq, Eq, Structural, Debug)]
pub enum Sink {
    Console,
    Logcat,
    Both,
    /// Neither text sink, for a quiet, file-only capture.
    Quiet,
}

/// The sink of that name.
pub open spec fn sink_named(name: Seq<char>) -> Option<Sink> {
    if name == "console"@ {
        Some(Sink::Console)
    } else if name == "logcat"@ {
        Some(Sink::Logcat)
    } else if name == "both"@ {
        Some(Sink::Both)
    } else if name == "none"@ {
        Some(Sink::Quiet)
    } else {
        None
    }
}

impl Sink {
    /// The name of the sink.
    pub open spec fn named(self) -> Seq<char> {
        match self {
            Sink::Console => "console"@,
            Sink::Logcat => "logcat"@,
            Sink::Both => "both"@,
            Sink::Quiet => "none"@,
        }
    }

    /// The number of the sink.
    pub open spec fn number(self) -> u8 {
        match self {
            Sink::Console => 0,
            Sink::Logcat => 1,
            Sink::Both => 2,
            Sink::Quiet => 3,
        }
    }

    /// Whether lines go to the console.
    pub fn console(self) -> (r: bool)
        ensures
            r == (self == Sink::Console || self == Sink::Both),
    {
        match self {
            Sink::Console | Sink::Both => true,
            _ => false,
        }
    }

    /// Whether lines go to logcat.
    pub fn logcat(self) -> (r: bool)
        ensures
            r == (self == Sink::Logcat || self == Sink::Both),
    {
        match self {
            Sink::Logcat | Sink::Both => true,
            _ => false,
        }
    }

    /// Parses a sink name (`console|logcat|both|none`).
    pub fn from_name(name: &str) -> (r: Option<Self>)
        ensures
            r == sink_named(name@),
    {
        if same_text(name, "console") {
            Some(Sink::Console)
        } else if same_text(name, "logcat") {
            Some(Sink::Logcat)
        } else if same_text(name, "both") {
            Some(Sink::Both)
        } else if same_text(name, "none") {
            Some(Sink::Quiet)
        } else {
            None
        }
    }

    /// The name of the sink.
    pub fn name(self) -> (r: &'static str)
        ensures
            r@ == self.named(),
    {
        match self {
            Sink::Console => "console",
            Sink::Logcat => "logcat",
            Sink::Both => "both",
            Sink::Quiet => "none",
        }
    }

    /// A stable encoding of the sink as a number.
    pub fn as_u8(self) -> (r: u8)
        ensures
            r == self.number(),
    {
        match self {
            Sink::Console => 0,
            Sink::Logcat => 1,
            Sink::Both => 2,
            Sink::Quiet => 3,
        }
    }

    /// The sink that a number encodes; the console for a number that encodes none.
    pub fn from_u8(v: u8) -> (r: Self)
        ensures
            r == (if v == 1 {
                Sink::Logcat
            } else if v == 2 {
                Sink::Both
            } else if v == 3 {
                Sink::Quiet
            } else {
                Sink::Console
            }),
            forall|s: Sink| v == #[trigger] s.number() ==> r == s,
    {
        match v {
            1 => Sink::Logcat,
            2 => Sink::Both,
            3 => Sink::Quiet,
            _ => Sink::Console,
        }
    }
}

/// A sink is found by its own name, and by no other.
pub proof fn law_sink_names(sink: Sink, name: Seq<char>)
    ensures
        sink_named(sink.named()) == Some(sink),
        sink_named(name) == Some(sink) ==> name == sink.named(),
{
    reveal_strlit("console");
    reveal_strlit("logcat");
    reveal_strlit("both");
    reveal_strlit("none");
    assert("console"@.len() == 7 && "logcat"@.len() == 6);
    assert("both"@.len() == 4 && "none"@.len() == 4);
    assert("both"@[0] == 'b' && "none"@[0] == 'n');
}

} // verus!
