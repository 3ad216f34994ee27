//! Actuator commands and their lossless text forms. `Command` is the
//! colon-separated vocabulary (`CoolTo:42.0`); `TemperatureActuatorCommand`
//! is the tagged JSON object the controller dispatches over the wire
//! (`{"SetMaxTemperature":100.0}`). Both round-trip exactly through their
//! encoders.

use vstd::prelude::*;
use vstd::string::StrSliceExecFns;
use vstd::string::StringExecFns;

use crate::datum::{dec_text, parse_dec_text, parse_int_text, Decimal};
use crate::error::{ParseError, ParseErrorKind};
use crate::text::{find_char, is_digit_char, scan_for_char, str_eq};

verus! {

broadcast use vstd::string::group_string_axioms;

/// The decimal a bare integer temperature denotes.
pub open spec fn dec_of_int(i: int) -> Decimal {
    Decimal {
        neg: i < 0,
        mantissa: (10 * (if i < 0 {
            -i
        } else {
            i
        })) as u64,
        scale: 1,
    }
}

impl Decimal {
    /// The decimal holding exactly the integer `i`.
    pub fn from_int(i: i32) -> (r: Decimal)
        ensures
            r == dec_of_int(i as int),
            r.wf(),
    {
        let mag: u64 = if i < 0 {
            (-(i as i64)) as u64
        } else {
            i as u64
        };
        Decimal { neg: i < 0, mantissa: 10 * mag, scale: 1 }
    }
}

/// A temperature an actuator is told to reach, read from command text: a
/// decimal, or a bare integer standing for that many degrees exactly.
pub open spec fn parse_temp_text(s: Seq<char>) -> Option<Decimal> {
    if parse_dec_text(s) is Some {
        Some(parse_dec_text(s).unwrap())
    } else if parse_int_text(s) is Some {
        Some(dec_of_int(parse_int_text(s).unwrap() as int))
    } else {
        None
    }
}

fn parse_temp_str(s: &str) -> (r: Option<Decimal>)
    ensures
        r == parse_temp_text(s@),
        r is Some ==> r.unwrap().wf(),
{
    if let Some(d) = crate::datum::parse_decimal_str(s) {
        return Some(d);
    }
    if let Some(i) = crate::datum::parse_i32_str(s) {
        return Some(Decimal::from_int(i));
    }
    None
}

/// A corrective instruction for a temperature actuator, in the plain
/// colon-separated vocabulary.
#[derive(Structural, PartialEq, Eq, Clone, Copy, Debug)]
pub enum Command {
    /// Cool the environment down to the given temperature.
    CoolTo(Decimal),
    /// Heat the environment up to the given temperature.
    HeatTo(Decimal),
}

impl crate::actuator::Command for Command {

}

/// The text of a command: its verb, a colon, and the temperature.
pub open spec fn command_text(c: Command) -> Seq<char> {
    match c {
        Command::CoolTo(t) => "CoolTo"@ + seq![':'] + dec_text(t),
        Command::HeatTo(t) => "HeatTo"@ + seq![':'] + dec_text(t),
    }
}

/// Reading command text back: the verb before the first colon picks the
/// variant, and the piece up to any second colon is the temperature.
pub open spec fn parse_command_text(s: Seq<char>) -> Option<Command> {
    let i = find_char(s, ':');
    if i == s.len() {
        None
    } else {
        let verb = s.subrange(0, i);
        let rest = s.subrange(i + 1, s.len() as int);
        let temp = rest.subrange(0, find_char(rest, ':'));
        if verb == "CoolTo"@ && parse_temp_text(temp) is Some {
            Some(Command::CoolTo(parse_temp_text(temp).unwrap()))
        } else if verb == "HeatTo"@ && parse_temp_text(temp) is Some {
            Some(Command::HeatTo(parse_temp_text(temp).unwrap()))
        } else {
            None
        }
    }
}

impl Command {
    pub open spec fn wf(self) -> bool {
        match self {
            Command::CoolTo(t) => t.wf(),
            Command::HeatTo(t) => t.wf(),
        }
    }

    /// Serializes the command to its colon-separated text.
    pub fn to_string(&self) -> (r: String)
        requires
            self.wf(),
        ensures
            r@ == command_text(*self),
    {
        let (verb, temp) = match self {
            Command::CoolTo(t) => ("CoolTo", t),
            Command::HeatTo(t) => ("HeatTo", t),
        };
        let mut out = String::from_str(verb);
        out.append(":");
        proof {
            reveal_strlit(":");
        }
        let ts = temp.to_string();
        out.append(ts.as_str());
        proof {
            assert(out@ =~= command_text(*self));
        }
        out
    }

    /// Reads a command back from its text; anything else is a `Command`
    /// parse error carrying the text.
    pub fn parse(s: &str) -> (r: Result<Command, ParseError>)
        ensures
            (match r {
                Ok(c) => parse_command_text(s@) == Some(c) && c.wf(),
                Err(e) => parse_command_text(s@) is None && e@.kind == ParseErrorKind::Command
                    && e@.text == s@,
            }),
    {
        let n = s.unicode_len();
        let i = scan_for_char(s, 0, ':');
        proof {
            crate::text::lemma_find_char_is(s@, ':', i as int);
        }
        if i == n {
            return Err(ParseError::new(ParseErrorKind::Command, String::from_str(s)));
        }
        let ghost rest = s@.subrange(i as int + 1, n as int);
        let j = scan_for_char(s, i + 1, ':');
        proof {
            assert forall|k: int| 0 <= k < j - i - 1 implies rest[k] != ':' by {
                assert(rest[k] == s@[k + i + 1]);
            }
            if j < n {
                assert(rest[j - i - 1] == ':');
            }
            crate::text::lemma_find_char_is(rest, ':', j - i - 1);
        }
        let verb = s.substring_char(0, i);
        let temp = s.substring_char(i + 1, j);
        proof {
            assert(temp@ =~= rest.subrange(0, find_char(rest, ':')));
        }
        let cool = str_eq(verb, "CoolTo");
        let heat = str_eq(verb, "HeatTo");
        if !cool && !heat {
            return Err(ParseError::new(ParseErrorKind::Command, String::from_str(s)));
        }
        match parse_temp_str(temp) {
            Some(t) => {
                if cool {
                    Ok(Command::CoolTo(t))
                } else {
                    Ok(Command::HeatTo(t))
                }
            },
            None => Err(ParseError::new(ParseErrorKind::Command, String::from_str(s))),
        }
    }
}

/// Reading back the text of a command yields that command.
pub proof fn lemma_command_text_round(c: Command)
    requires
        c.wf(),
    ensures
        parse_command_text(command_text(c)) == Some(c),
{
    reveal_strlit("CoolTo");
    reveal_strlit("HeatTo");
    let s = command_text(c);
    let t = match c {
        Command::CoolTo(t) => t,
        Command::HeatTo(t) => t,
    };
    let verb: Seq<char> = match c {
        Command::CoolTo(_) => "CoolTo"@,
        Command::HeatTo(_) => "HeatTo"@,
    };
    crate::datum::lemma_dec_text_chars(t);
    assert forall|k: int| 0 <= k < 6 implies s[k] != ':' by {
        assert(s[k] == verb[k]);
    }
    assert(s[6] == ':');
    crate::text::lemma_find_char_is(s, ':', 6);
    let rest = s.subrange(7, s.len() as int);
    assert(rest =~= dec_text(t));
    assert forall|k: int| 0 <= k < rest.len() implies rest[k] != ':' by {
        assert(is_digit_char(rest[k]) || rest[k] == '-' || rest[k] == '.');
    }
    crate::text::lemma_find_char_is(rest, ':', rest.len() as int);
    assert(rest.subrange(0, rest.len() as int) =~= rest);
    assert(s.subrange(0, 6) =~= verb);
    crate::datum::lemma_dec_text_round(t);
    assert("CoolTo"@ != "HeatTo"@);
}

/// The command vocabulary of the temperature actuator, dispatched on the
/// wire as a tagged JSON object.
#[derive(Structural, PartialEq, Eq, Clone, Copy, Debug)]
pub enum TemperatureActuatorCommand {
    /// Cap the environment's temperature at the given value.
    SetMaxTemperature(Decimal),
}

impl crate::actuator::Command for TemperatureActuatorCommand {

}

/// The JSON text of a temperature-actuator command.
pub open spec fn command_json(c: TemperatureActuatorCommand) -> Seq<char> {
    match c {
        TemperatureActuatorCommand::SetMaxTemperature(t) => "{\"SetMaxTemperature\":"@ + dec_text(
            t,
        ) + seq!['}'],
    }
}

/// Reading the JSON text back: the fixed tag, a decimal or bare integer
/// temperature, and the closing brace.
pub open spec fn parse_command_json(s: Seq<char>) -> Option<TemperatureActuatorCommand> {
    if s.len() >= 23 && s.subrange(0, 21) == "{\"SetMaxTemperature\":"@ && s.last() == '}'
        && parse_temp_text(s.subrange(21, s.len() - 1)) is Some {
        Some(
            TemperatureActuatorCommand::SetMaxTemperature(
                parse_temp_text(s.subrange(21, s.len() - 1)).unwrap(),
            ),
        )
    } else {
        None
    }
}

impl TemperatureActuatorCommand {
    pub open spec fn wf(self) -> bool {
        match self {
            TemperatureActuatorCommand::SetMaxTemperature(t) => t.wf(),
        }
    }

    /// Serializes the command as a tagged JSON object.
    pub fn to_json(&self) -> (r: String)
        requires
            self.wf(),
        ensures
            r@ == command_json(*self),
    {
        let TemperatureActuatorCommand::SetMaxTemperature(t) = self;
        let mut out = String::from_str("{\"SetMaxTemperature\":");
        let ts = t.to_string();
        out.append(ts.as_str());
        out.append("}");
        proof {
            reveal_strlit("}");
            assert(out@ =~= command_json(*self));
        }
        out
    }

    /// Reads a command back from its JSON text; anything else is a
    /// `Command` parse error carrying the text.
    pub fn parse_json(s: &str) -> (r: Result<TemperatureActuatorCommand, ParseError>)
        ensures
            (match r {
                Ok(c) => parse_command_json(s@) == Some(c) && c.wf(),
                Err(e) => parse_command_json(s@) is None && e@.kind == ParseErrorKind::Command
                    && e@.text == s@,
            }),
    {
        let n = s.unicode_len();
        if n < 23 {
            return Err(ParseError::new(ParseErrorKind::Command, String::from_str(s)));
        }
        let tag = s.substring_char(0, 21);
        if !str_eq(tag, "{\"SetMaxTemperature\":") {
            return Err(ParseError::new(ParseErrorKind::Command, String::from_str(s)));
        }
        if s.get_char(n - 1) != '}' {
            return Err(ParseError::new(ParseErrorKind::Command, String::from_str(s)));
        }
        let temp = s.substring_char(21, n - 1);
        match parse_temp_str(temp) {
            Some(t) => Ok(TemperatureActuatorCommand::SetMaxTemperature(t)),
            None => Err(ParseError::new(ParseErrorKind::Command, String::from_str(s))),
        }
    }
}

/// Reading back the JSON of a temperature-actuator command yields that
/// command.
pub proof fn lemma_command_json_round(c: TemperatureActuatorCommand)
    requires
        c.wf(),
    ensures
        parse_command_json(command_json(c)) == Some(c),
{
    reveal_strlit("{\"SetMaxTemperature\":");
    let TemperatureActuatorCommand::SetMaxTemperature(t) = c;
    let s = command_json(c);
    crate::datum::lemma_dec_text_chars(t);
    assert(dec_text(t).len() >= 1);
    assert(s.len() >= 23);
    assert(s.subrange(0, 21) =~= "{\"SetMaxTemperature\":"@);
    assert(s.last() == '}');
    assert(s.subrange(21, s.len() - 1) =~= dec_text(t));
    crate::datum::lemma_dec_text_round(t);
}

} // verus!
