//! The errors of the parsers, their messages, and the messages that parser
//! combinators build from the input where a parse failed.

use vstd::prelude::*;
use crate::text::{push_char, push_str, str_debug, str_debug_text};

verus! {

#[derive(Debug, PartialEq)]
pub enum DbcParseError {
    BadVersion,
    BadNames,
    BadBitTiming,
    BadBitTimingValue,
    BadCanNodes,
    BadSignal,
    BadMessageHeader,
    BadComment,
    BadNetworkComment,
    BadNodeComment,
    BadMessageComment,
    BadSignalComment,
    BadEnvironmentVariable,
    BadEnvironmentVariableData,
    BadEnvironmentVariableComment,
    BadSignalValueDescriptions,
    BadEnvironmentVariableValueDescriptions,
    BadAttributeIntegerValueType,
    BadAttributeHexValueType,
    BadAttributeFloatValueType,
    BadAttributeStringValueType,
    BadAttributeEnumValueType,
    BadNetworkAttribute,
    BadNodeAttribute,
    BadMessageAttribute,
    BadSignalAttribute,
    BadInt,
    BadFloat,
    BadEscape,
    Unparseable,
    InvalidCIdentifier,
    UseKeywordAsIdentifier,
    DebugMsg(String),
}

/// The message of an error, as it is shown to a user.
pub open spec fn error_message(e: DbcParseError) -> Seq<char> {
    match e {
        DbcParseError::BadVersion => "bad version"@,
        DbcParseError::BadNames => "bad names"@,
        DbcParseError::BadBitTiming => "bad bit timing"@,
        DbcParseError::BadBitTimingValue => "bad bit timing value"@,
        DbcParseError::BadCanNodes => "bad can nodes"@,
        DbcParseError::BadSignal => "bad signal"@,
        DbcParseError::BadMessageHeader => "bad message header"@,
        DbcParseError::BadComment => "bad comment"@,
        DbcParseError::BadNetworkComment => "bad network comment"@,
        DbcParseError::BadNodeComment => "bad node comment"@,
        DbcParseError::BadMessageComment => "bad message comment"@,
        DbcParseError::BadSignalComment => "bad signal comment"@,
        DbcParseError::BadEnvironmentVariable => "bad environment variable"@,
        DbcParseError::BadEnvironmentVariableData => "bad environment variable data"@,
        DbcParseError::BadEnvironmentVariableComment => "bad environment variable comment"@,
        DbcParseError::BadSignalValueDescriptions => "bad signal value descriptions"@,
        DbcParseError::BadEnvironmentVariableValueDescriptions =>
            "bad environment variable value descriptions"@,
        DbcParseError::BadAttributeIntegerValueType => "bad attribute integer value type"@,
        DbcParseError::BadAttributeHexValueType => "bad attribute hex value type"@,
        DbcParseError::BadAttributeFloatValueType => "bad attribute float value type"@,
        DbcParseError::BadAttributeStringValueType => "bad attribute string value type"@,
        DbcParseError::BadAttributeEnumValueType => "bad attribute enum value type"@,
        DbcParseError::BadNetworkAttribute => "bad network attribute"@,
        DbcParseError::BadNodeAttribute => "bad node attribute"@,
        DbcParseError::BadMessageAttribute => "bad message attribute"@,
        DbcParseError::BadSignalAttribute => "bad signal attribute"@,
        DbcParseError::BadInt => "bad integer"@,
        DbcParseError::BadFloat => "bad float"@,
        DbcParseError::BadEscape => "bad escape sequence"@,
        DbcParseError::Unparseable => "unknown parser error"@,
        DbcParseError::InvalidCIdentifier => "invalid c identifier"@,
        DbcParseError::UseKeywordAsIdentifier => "invalid dbc identifier"@,
        DbcParseError::DebugMsg(_) => "debug message"@,
    }
}

/// Whether `e` is a debug message with the text `text`.
pub open spec fn is_debug_msg(e: DbcParseError, text: Seq<char>) -> bool {
    match e {
        DbcParseError::DebugMsg(m) => m@ == text,
        _ => false,
    }
}

/// The text of a message that points at the input where a parse failed:
/// a label, a colon and a tab, the input in its quoted and escaped form,
/// and a line break.
pub open spec fn located_text(label: Seq<char>, quoted_input: Seq<char>) -> Seq<char> {
    label + ":\t"@ + quoted_input + "\n"@
}

/// Whether `m` holds no line break.
pub open spec fn has_no_line_break(m: Seq<char>) -> bool {
    forall|j: int| 0 <= j < m.len() ==> m[j] != '\n'
}

/// Whether `m` is one line: it ends with a line break, its only one.
pub open spec fn is_one_line(m: Seq<char>) -> bool {
    &&& m.len() > 0
    &&& m.last() == '\n'
    &&& has_no_line_break(m.drop_last())
}

/// Whether `e` is a debug message of one line.
pub open spec fn is_one_line_msg(e: DbcParseError) -> bool {
    match e {
        DbcParseError::DebugMsg(m) => is_one_line(m@),
        _ => false,
    }
}

/// The debug message `label:\t<quoted_input>\n`, where `quoted_input` is the
/// input in the form that `Debug` gives a string.
pub fn located_message(label: String, quoted_input: &str) -> (e: DbcParseError)
    ensures
        is_debug_msg(e, located_text(label@, quoted_input@)),
        has_no_line_break(label@) && has_no_line_break(quoted_input@) ==> is_one_line_msg(e),
{
    proof {
        reveal_strlit(":\t");
        reveal_strlit("\n");
    }
    let ghost l = label@;
    let mut m = label;
    push_str(&mut m, ":\t");
    push_str(&mut m, quoted_input);
    push_str(&mut m, "\n");
    proof {
        let q = quoted_input@;
        let body = l + seq![':', '\t'] + q;
        assert(":\t"@ =~= seq![':', '\t']);
        assert("\n"@ =~= seq!['\n']);
        assert(m@ =~= body.push('\n'));
        assert(m@.drop_last() =~= body);
        if has_no_line_break(l) && has_no_line_break(q) {
            assert forall|j: int| 0 <= j < body.len() implies body[j] != '\n' by {
                if j < l.len() {
                    assert(body[j] == l[j]);
                } else if j >= l.len() + 2 {
                    assert(body[j] == q[j - l.len() - 2]);
                }
            }
        }
    }
    DbcParseError::DebugMsg(m)
}

impl DbcParseError {
    /// Appends the message of the error.
    pub fn write_to(&self, out: &mut String)
        ensures
            final(out)@ == old(out)@ + error_message(*self),
    {
        let text = match self {
            DbcParseError::BadVersion => "bad version",
            DbcParseError::BadNames => "bad names",
            DbcParseError::BadBitTiming => "bad bit timing",
            DbcParseError::BadBitTimingValue => "bad bit timing value",
            DbcParseError::BadCanNodes => "bad can nodes",
            DbcParseError::BadSignal => "bad signal",
            DbcParseError::BadMessageHeader => "bad message header",
            DbcParseError::BadComment => "bad comment",
            DbcParseError::BadNetworkComment => "bad network comment",
            DbcParseError::BadNodeComment => "bad node comment",
            DbcParseError::BadMessageComment => "bad message comment",
            DbcParseError::BadSignalComment => "bad signal comment",
            DbcParseError::BadEnvironmentVariable => "bad environment variable",
            DbcParseError::BadEnvironmentVariableData => "bad environment variable data",
            DbcParseError::BadEnvironmentVariableComment => "bad environment variable comment",
            DbcParseError::BadSignalValueDescriptions => "bad signal value descriptions",
            DbcParseError::BadEnvironmentVariableValueDescriptions =>
                "bad environment variable value descriptions",
            DbcParseError::BadAttributeIntegerValueType => "bad attribute integer value type",
            DbcParseError::BadAttributeHexValueType => "bad attribute hex value type",
            DbcParseError::BadAttributeFloatValueType => "bad attribute float value type",
            DbcParseError::BadAttributeStringValueType => "bad attribute string value type",
            DbcParseError::BadAttributeEnumValueType => "bad attribute enum value type",
            DbcParseError::BadNetworkAttribute => "bad network attribute",
            DbcParseError::BadNodeAttribute => "bad node attribute",
            DbcParseError::BadMessageAttribute => "bad message attribute",
            DbcParseError::BadSignalAttribute => "bad signal attribute",
            DbcParseError::BadInt => "bad integer",
            DbcParseError::BadFloat => "bad float",
            DbcParseError::BadEscape => "bad escape sequence",
            DbcParseError::Unparseable => "unknown parser error",
            DbcParseError::InvalidCIdentifier => "invalid c identifier",
            DbcParseError::UseKeywordAsIdentifier => "invalid dbc identifier",
            DbcParseError::DebugMsg(_) => "debug message",
        };
        push_str(out, text);
    }

    /// The message of the error, e.g. `bad version`.
    pub fn to_string(&self) -> (s: String)
        ensures
            s@ == error_message(*self),
    {
        let mut s = String::new();
        self.write_to(&mut s);
        s
    }

    /// The error for a failure of the parser of kind `kind` (the name of the
    /// kind, e.g. `Eof`) at `input`: the message `kind:\t"input"\n`.
    /// Where the kind's name has no line break, the message is one line,
    /// whatever the input holds.
    pub fn from_error_kind(input: &str, kind: &str) -> (e: DbcParseError)
        ensures
            is_debug_msg(e, located_text(kind@, str_debug_text(input@))),
            has_no_line_break(kind@) ==> is_one_line_msg(e),
    {
        let mut label = String::new();
        push_str(&mut label, kind);
        located_message(label, str_debug(input).as_str())
    }

    /// `other` followed by a failure of kind `kind` at `input`: the message of
    /// `other`, then `kind:\t"input"\n`.
    pub fn append(input: &str, kind: &str, other: DbcParseError) -> (e: DbcParseError)
        ensures
            is_debug_msg(e, located_text(error_message(other) + kind@, str_debug_text(input@))),
    {
        let mut label = String::new();
        other.write_to(&mut label);
        push_str(&mut label, kind);
        located_message(label, str_debug(input).as_str())
    }

    /// A failure to find the character `c` at `input`: `'c':\t"input"\n`.
    pub fn from_char(input: &str, c: char) -> (e: DbcParseError)
        ensures
            is_debug_msg(e, located_text(seq!['\'', c, '\''], str_debug_text(input@))),
            c != '\n' ==> is_one_line_msg(e),
    {
        let mut label = String::new();
        push_char(&mut label, '\'');
        push_char(&mut label, c);
        push_char(&mut label, '\'');
        assert(label@ =~= seq!['\'', c, '\'']);
        located_message(label, str_debug(input).as_str())
    }

    /// Two alternatives that both failed: the message of the first, a tab,
    /// `OR` and a line break, the message of the second and a line break.
    pub fn or(self, other: DbcParseError) -> (e: DbcParseError)
        ensures
            is_debug_msg(e, error_message(self) + "\tOR\n"@ + error_message(other) + "\n"@),
    {
        let mut m = String::new();
        self.write_to(&mut m);
        push_str(&mut m, "\tOR\n");
        other.write_to(&mut m);
        push_str(&mut m, "\n");
        DbcParseError::DebugMsg(m)
    }

    /// `other` in the context `ctx` at `input`: the message of `other`, then
    /// `"ctx":\t"input"\n`.
    pub fn add_context(input: &str, ctx: &str, other: DbcParseError) -> (e: DbcParseError)
        ensures
            is_debug_msg(
                e,
                located_text(error_message(other) + seq!['"'] + ctx@ + seq!['"'], str_debug_text(input@)),
            ),
    {
        let mut label = String::new();
        other.write_to(&mut label);
        push_char(&mut label, '"');
        push_str(&mut label, ctx);
        push_char(&mut label, '"');
        assert(label@ =~= error_message(other) + seq!['"'] + ctx@ + seq!['"']);
        located_message(label, str_debug(input).as_str())
    }
}

} // verus!
