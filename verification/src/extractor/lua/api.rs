//! What the host offers to a script, as far as it is text and counting.

use vstd::prelude::*;
use vstd::string::*;

verus! {

/// The severity of a message that a script logs.
#[derive(Debug, Clone, Copy, PartialEq, Eq, Structural)]
pub enum LogLevel {
    Trace,
    Debug,
    Info,
    Warn,
    Error,
}

impl LogLevel {
    /// The name of the function, under `feedgen.log`, that logs at this level.
    pub open spec fn spec_name(self) -> Seq<char> {
        match self {
            LogLevel::Trace => "trace"@,
            LogLevel::Debug => "debug"@,
            LogLevel::Info => "info"@,
            LogLevel::Warn => "warn"@,
            LogLevel::Error => "error"@,
        }
    }

    /// The name of the function, under `feedgen.log`, that logs at this level.
    pub fn name(&self) -> (r: &'static str)
        ensures
            r@ == self.spec_name(),
    {
        match self {
            LogLevel::Trace => "trace",
            LogLevel::Debug => "debug",
            LogLevel::Info => "info",
            LogLevel::Warn => "warn",
            LogLevel::Error => "error",
        }
    }
}

/// The level at which the global `print` of a script logs.
pub fn print_level() -> (r: LogLevel)
    ensures
        r == LogLevel::Info,
{
    LogLevel::Info
}

/// What stands for a place in a script that is not known.
pub const UNKNOWN_LOCATION: &'static str = "<unknown>";

/// The decimal digits of a number, the most significant first, without leading
/// zeros; zero is written as one digit.
pub open spec fn decimal(n: nat) -> Seq<char>
    decreases n,
{
    if n < 10 {
        seq![digit_char(n)]
    } else {
        decimal(n / 10).push(digit_char(n % 10))
    }
}

/// The character of a digit.
pub open spec fn digit_char(d: nat) -> char {
    if d == 0 {
        '0'
    } else if d == 1 {
        '1'
    } else if d == 2 {
        '2'
    } else if d == 3 {
        '3'
    } else if d == 4 {
        '4'
    } else if d == 5 {
        '5'
    } else if d == 6 {
        '6'
    } else if d == 7 {
        '7'
    } else if d == 8 {
        '8'
    } else {
        '9'
    }
}

/// A digit as text.
fn digit_text(d: u64) -> (r: &'static str)
    requires
        d < 10,
    ensures
        r@ == seq![digit_char(d as nat)],
{
    proof {
        reveal_strlit("0");
        reveal_strlit("1");
        reveal_strlit("2");
        reveal_strlit("3");
        reveal_strlit("4");
        reveal_strlit("5");
        reveal_strlit("6");
        reveal_strlit("7");
        reveal_strlit("8");
        reveal_strlit("9");
    }
    let text = if d == 0 {
        "0"
    } else if d == 1 {
        "1"
    } else if d == 2 {
        "2"
    } else if d == 3 {
        "3"
    } else if d == 4 {
        "4"
    } else if d == 5 {
        "5"
    } else if d == 6 {
        "6"
    } else if d == 7 {
        "7"
    } else if d == 8 {
        "8"
    } else {
        "9"
    };
    proof {
        assert(text@ =~= seq![digit_char(d as nat)]);
    }
    text
}

/// A number in decimal digits, without leading zeros.
fn number_text(n: u64) -> (r: String)
    ensures
        r@ == decimal(n as nat),
    decreases n,
{
    if n < 10 {
        String::from_str(digit_text(n))
    } else {
        let mut text = number_text(n / 10);
        text.append(digit_text(n % 10));
        proof {
            assert(text@ =~= decimal((n / 10) as nat).push(digit_char((n % 10) as nat)));
        }
        text
    }
}

/// Where a script is being run, as its host tells it: the short name of the
/// source, where it is known, and the current line, which is not positive
/// where it is not known.
#[derive(Debug)]
pub struct CallSite {
    pub short_src: Option<String>,
    pub line: i64,
}

/// The text for the place that called into the host: `<unknown>` where the
/// host cannot tell, else the short name of the source, or `<unknown>` in its
/// stead, followed by a colon and the line where the line is known.
pub open spec fn caller_text(site: Option<CallSite>) -> Seq<char> {
    match site {
        None => UNKNOWN_LOCATION@,
        Some(site) => {
            let src = match site.short_src {
                Some(s) => s@,
                None => UNKNOWN_LOCATION@,
            };
            if site.line > 0 {
                src + ":"@ + decimal(site.line as nat)
            } else {
                src
            }
        },
    }
}

/// Writes the place that called into the host.
pub fn get_caller_info(site: &Option<CallSite>) -> (r: String)
    ensures
        r@ == caller_text(*site),
{
    match site {
        None => String::from_str(UNKNOWN_LOCATION),
        Some(site) => {
            let mut text = match &site.short_src {
                Some(s) => s.clone(),
                None => String::from_str(UNKNOWN_LOCATION),
            };
            if site.line > 0 {
                text.append(":");
                let line = number_text(site.line as u64);
                text.append(line.as_str());
            }
            text
        },
    }
}

/// An argument of a log call as text, or why it could not be written as text.
#[derive(Debug)]
pub enum Argument {
    Text(String),
    Failed(String),
}

/// The text that stands for the argument at place `index`, counted from zero.
pub open spec fn argument_text(argument: Argument, index: nat) -> Seq<char> {
    match argument {
        Argument::Text(s) => s@,
        Argument::Failed(e) => "<conversion of arg #"@ + decimal(index + 1) + " failed: "@ + e@
            + ">"@,
    }
}

/// The arguments of a log call as one text: the text of each, with `sep`
/// between one and the next.
pub open spec fn joined(arguments: Seq<Argument>, sep: Seq<char>) -> Seq<char>
    decreases arguments.len(),
{
    if arguments.len() == 0 {
        Seq::empty()
    } else if arguments.len() == 1 {
        argument_text(arguments[0], 0)
    } else {
        joined(arguments.drop_last(), sep) + sep + argument_text(
            arguments.last(),
            (arguments.len() - 1) as nat,
        )
    }
}

/// Writes the arguments of a log call as one text.
pub fn args_to_string(values: &Vec<Argument>, sep: &str) -> (r: String)
    ensures
        r@ == joined(values@, sep@),
{
    let mut result = String::new();
    let mut i: usize = 0;
    while i < values.len()
        invariant
            i <= values@.len(),
            result@ == joined(values@.take(i as int), sep@),
        decreases values@.len() - i,
    {
        let ghost before = result@;
        proof {
            assert(values@.take(i as int + 1).drop_last() =~= values@.take(i as int));
            assert(values@.take(i as int + 1).last() == values@[i as int]);
            if i == 0 {
                assert(values@.take(1)[0] == values@[0]);
            }
        }
        if i > 0 {
            result.append(sep);
        }
        match &values[i] {
            Argument::Text(s) => {
                result.append(s.as_str());
            },
            Argument::Failed(e) => {
                result.append("<conversion of arg #");
                let number = number_text((i as u64) + 1);
                result.append(number.as_str());
                result.append(" failed: ");
                result.append(e.as_str());
                result.append(">");
            },
        }
        proof {
            let text = argument_text(values@[i as int], i as nat);
            if i == 0 {
                assert(before =~= Seq::<char>::empty());
                assert(result@ =~= text);
            } else {
                assert(result@ =~= before + sep@ + text);
            }
        }
        i = i + 1;
    }
    proof {
        assert(values@.take(values@.len() as int) =~= values@);
    }
    result
}

/// Writes the warnings of a script. A warning may come in pieces; each piece
/// says whether another follows.
#[derive(Debug, Clone, Copy, PartialEq, Eq, Structural)]
pub struct WarningEmitter {
    /// Whether the piece before this one said that another follows.
    pub last_continued: bool,
}

/// The text for one piece of a warning.
pub open spec fn warning_text(last_continued: bool, piece: Seq<char>) -> Seq<char> {
    if last_continued {
        "Lua warning (cont.): "@ + piece
    } else {
        "Lua warning: "@ + piece
    }
}

impl WarningEmitter {
    /// An emitter that has seen no warning yet.
    pub fn new() -> (r: Self)
        ensures
            !r.last_continued,
    {
        WarningEmitter { last_continued: false }
    }

    /// Writes one piece of a warning, marked as a continuation where the piece
    /// before it announced one, and remembers whether this piece announces one.
    pub fn emit(&mut self, piece: &str, cont: bool) -> (r: String)
        ensures
            r@ == warning_text(old(self).last_continued, piece@),
            final(self).last_continued == cont,
    {
        let mut text = if self.last_continued {
            String::from_str("Lua warning (cont.): ")
        } else {
            String::from_str("Lua warning: ")
        };
        text.append(piece);
        self.last_continued = cont;
        text
    }
}

/// The kind of a node of a parsed page.
#[derive(Debug, Clone, Copy, PartialEq, Eq, Structural)]
pub enum NodeKind {
    Document,
    Fragment,
    Doctype,
    Comment,
    Text,
    Element,
    ProcessingInstruction,
}

impl NodeKind {
    /// What `type()` tells a script about a node of this kind.
    pub open spec fn spec_kind_name(self) -> Seq<char> {
        match self {
            NodeKind::Document => "document"@,
            NodeKind::Fragment => "fragment"@,
            NodeKind::Doctype => "doctype"@,
            NodeKind::Comment => "comment"@,
            NodeKind::Text => "text"@,
            NodeKind::Element => "element"@,
            NodeKind::ProcessingInstruction => "processing instruction"@,
        }
    }

    /// What `type()` tells a script about a node of this kind.
    pub fn kind_name(&self) -> (r: &'static str)
        ensures
            r@ == self.spec_kind_name(),
    {
        match self {
            NodeKind::Document => "document",
            NodeKind::Fragment => "fragment",
            NodeKind::Doctype => "doctype",
            NodeKind::Comment => "comment",
            NodeKind::Text => "text",
            NodeKind::Element => "element",
            NodeKind::ProcessingInstruction => "processing instruction",
        }
    }
}

/// Whether an iterator hands a node of this kind out.
pub open spec fn handed_out(kind: NodeKind, elements_only: bool) -> bool {
    !elements_only || kind == NodeKind::Element
}

/// The place of the next node that an iterator over `kinds` hands out when it
/// stands at `from`: the first at or after `from` that it hands out at all.
pub fn next_node(kinds: &Vec<NodeKind>, from: usize, elements_only: bool) -> (r: Option<usize>)
    ensures
        match r {
            Some(i) => from <= i < kinds@.len() && handed_out(kinds@[i as int], elements_only)
                && forall|k: int| from <= k < i ==> !handed_out(#[trigger] kinds@[k], elements_only),
            None => forall|k: int|
                from <= k < kinds@.len() ==> !handed_out(#[trigger] kinds@[k], elements_only),
        },
{
    let mut i: usize = from;
    while i < kinds.len()
        invariant
            from <= i,
            forall|k: int| from <= k < i && k < kinds@.len() ==> !handed_out(
                #[trigger] kinds@[k],
                elements_only,
            ),
        decreases kinds@.len() - i,
    {
        let kind = kinds[i];
        let is_element = match kind {
            NodeKind::Element => true,
            _ => false,
        };
        if !elements_only || is_element {
            return Some(i);
        }
        i = i + 1;
    }
    None
}

} // verus!
