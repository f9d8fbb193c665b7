//! The configuration of one search, built from the program's arguments.

use crate::style::{add_fg, with_fg};
use crate::text::{chars_of, texts};
use vstd::prelude::*;
use vstd::string::*;

verus! {

/// What one search needs to know.
#[derive(Debug, PartialEq, Eq, Clone)]
pub struct Config {
    /// The text to look for.
    pub query: String,
    /// The file to look in.
    pub filename: String,
    /// The style in which the query is shown; 0 for none.
    pub style: u8,
    /// Whether capitals and small letters differ.
    pub case_sensitive: bool,
}

/// A required argument that was not given. No configuration can be built
/// without it.
#[derive(Debug, PartialEq, Eq, Clone, Copy, Structural)]
pub enum MissingArgument {
    /// Nothing follows the program's name.
    Query,
    /// Only the query follows the program's name.
    Filename,
}

/// Something in the arguments that was put right and does not stop the
/// search.
#[derive(Debug, PartialEq, Eq, Clone, Copy, Structural)]
pub enum Warning {
    /// The third argument is no number from 0 to 255; the style is 0.
    UnparseableStyle,
    /// More than three arguments were given; those after the third are left
    /// out.
    ExtraArguments,
}

/// `c` is one of the ten decimal digits.
pub open spec fn is_digit(c: char) -> bool {
    '0' <= c <= '9'
}

/// The number that a sequence of decimal digits writes.
pub open spec fn digits_value(s: Seq<char>) -> nat
    decreases s.len(),
{
    if s.len() == 0 {
        0
    } else {
        (digits_value(s.drop_last()) * 10 + (s.last() as nat - 48)) as nat
    }
}

/// What follows an optional plus sign at the start of `s`.
pub open spec fn unsigned_part(s: Seq<char>) -> Seq<char> {
    if s.len() > 0 && s[0] == '+' {
        s.skip(1)
    } else {
        s
    }
}

/// The number from 0 to 255 that `s` writes: one or more decimal digits,
/// perhaps behind one plus sign, and nothing else. Leading zeros count for
/// nothing.
pub open spec fn parsed_style(s: Seq<char>) -> Option<u8> {
    let body = unsigned_part(s);
    if body.len() > 0 && (forall|i: int| 0 <= i < body.len() ==> is_digit(#[trigger] body[i]))
        && digits_value(body) <= 255 {
        Some(digits_value(body) as u8)
    } else {
        None
    }
}

/// The style that the arguments ask for: the number that the third one
/// after the program's name writes, and 0 where it is absent or writes none.
pub open spec fn style_of(args: Seq<Seq<char>>) -> u8 {
    if args.len() >= 4 {
        match parsed_style(args[3]) {
            Some(code) => code,
            None => 0,
        }
    } else {
        0
    }
}

/// The warnings that the arguments give rise to, in the order in which they
/// are found.
pub open spec fn warnings_of(args: Seq<Seq<char>>) -> Seq<Warning> {
    let style = if args.len() >= 4 && parsed_style(args[3]) is None {
        seq![Warning::UnparseableStyle]
    } else {
        Seq::<Warning>::empty()
    };
    let extra = if args.len() >= 5 {
        seq![Warning::ExtraArguments]
    } else {
        Seq::<Warning>::empty()
    };
    style + extra
}

/// The text of the message for a missing argument, before it is coloured.
pub open spec fn missing_text(missing: MissingArgument) -> Seq<char> {
    match missing {
        MissingArgument::Query => "Missing the first argument (query)"@,
        MissingArgument::Filename => "Missing the second argument (filename)"@,
    }
}

/// The text of a warning, before it is coloured.
pub open spec fn warning_text(warning: Warning) -> Seq<char> {
    match warning {
        Warning::UnparseableStyle => "WARNING: Could not parse the third argument (style) as a u8"@,
        Warning::ExtraArguments => "WARNING: Too many arguments; the 4th one and up will be discarded"@,
    }
}

/// A longer run of digits writes a number at least as large.
proof fn lemma_digits_value_grows(s: Seq<char>, k: int)
    requires
        0 <= k <= s.len(),
        forall|i: int| 0 <= i < s.len() ==> is_digit(#[trigger] s[i]),
    ensures
        digits_value(s.take(k)) <= digits_value(s),
    decreases s.len() - k,
{
    if k == s.len() {
        assert(s.take(k) =~= s);
    } else {
        lemma_digits_value_grows(s, k + 1);
        assert(s.take(k + 1).drop_last() =~= s.take(k));
        assert(is_digit(s[k]));
    }
}

/// The number from 0 to 255 that `arg` writes, if it writes one.
pub fn parse_style(arg: &str) -> (code: Option<u8>)
    ensures
        code == parsed_style(arg@),
{
    let chars = chars_of(arg);
    let start: usize = if chars.len() > 0 && chars[0] == '+' {
        1
    } else {
        0
    };
    let ghost body = unsigned_part(arg@);
    if start == chars.len() {
        return None;
    }
    let mut value: u16 = 0;
    let mut i: usize = start;
    proof {
        assert(body.take(0) =~= Seq::<char>::empty());
    }
    while i < chars.len()
        invariant
            start <= i <= chars.len(),
            chars@ == arg@,
            body == unsigned_part(arg@),
            body.len() == chars.len() - start,
            forall|j: int| 0 <= j < body.len() ==> body[j] == chars@[start + j],
            forall|j: int| 0 <= j < i - start ==> is_digit(#[trigger] body[j]),
            value == digits_value(body.take(i - start)),
            value <= 255,
        decreases chars.len() - i,
    {
        let c = chars[i];
        if !('0' <= c && c <= '9') {
            proof {
                assert(!is_digit(body[i - start]));
            }
            return None;
        }
        let d: u16 = (c as u8 - 48) as u16;
        proof {
            assert(body.take(i - start + 1).drop_last() =~= body.take(i - start));
            assert(body.take(i - start + 1).last() == c);
        }
        value = value * 10 + d;
        i += 1;
        if value > 255 {
            proof {
                if forall|j: int| 0 <= j < body.len() ==> is_digit(#[trigger] body[j]) {
                    lemma_digits_value_grows(body, i - start);
                }
            }
            return None;
        }
    }
    proof {
        assert(body.take(i - start) =~= body);
    }
    Some(value as u8)
}

impl MissingArgument {
    /// The message for this failure, in red.
    pub fn message(&self) -> (out: String)
        ensures
            out@ == with_fg(missing_text(*self), 255, 0, 0),
    {
        match self {
            MissingArgument::Query => add_fg(
                String::from_str("Missing the first argument (query)"),
                255,
                0,
                0,
            ),
            MissingArgument::Filename => add_fg(
                String::from_str("Missing the second argument (filename)"),
                255,
                0,
                0,
            ),
        }
    }
}

impl Warning {
    /// The message for this warning, in yellow.
    pub fn message(&self) -> (out: String)
        ensures
            out@ == with_fg(warning_text(*self), 255, 255, 0),
    {
        match self {
            Warning::UnparseableStyle => add_fg(
                String::from_str("WARNING: Could not parse the third argument (style) as a u8"),
                255,
                255,
                0,
            ),
            Warning::ExtraArguments => add_fg(
                String::from_str(
                    "WARNING: Too many arguments; the 4th one and up will be discarded",
                ),
                255,
                255,
                0,
            ),
        }
    }
}

impl Config {
    /// Builds the configuration from the program's arguments, of which the
    /// first is the program's name, and from whether the case-insensitive
    /// toggle is set in the environment.
    ///
    /// The query and the file name are the two arguments after the program's
    /// name; without them nothing is built. The style is the number that the
    /// next argument writes, and 0 with a warning where it writes none.
    /// Arguments beyond that are left out with a warning.
    pub fn new(args: &Vec<String>, case_insensitive: bool) -> (built: Result<
        (Config, Vec<Warning>),
        MissingArgument,
    >)
        ensures
            args.len() == 0 || args.len() == 1 ==> built == Err::<(Config, Vec<Warning>), _>(
                MissingArgument::Query,
            ),
            args.len() == 2 ==> built == Err::<(Config, Vec<Warning>), _>(MissingArgument::Filename),
            args.len() >= 3 ==> built is Ok && ({
                let (config, warnings) = built->Ok_0;
                &&& config.query@ == args[1]@
                &&& config.filename@ == args[2]@
                &&& config.style == style_of(texts(args@))
                &&& config.case_sensitive == !case_insensitive
                &&& warnings@ == warnings_of(texts(args@))
            }),
    {
        if args.len() < 2 {
            return Err(MissingArgument::Query);
        }
        if args.len() < 3 {
            return Err(MissingArgument::Filename);
        }
        let mut warnings: Vec<Warning> = Vec::new();
        let mut style: u8 = 0;
        if args.len() >= 4 {
            match parse_style(args[3].as_str()) {
                Some(code) => {
                    style = code;
                },
                None => {
                    warnings.push(Warning::UnparseableStyle);
                },
            }
            if args.len() >= 5 {
                warnings.push(Warning::ExtraArguments);
            }
        }
        proof {
            assert(warnings@ =~= warnings_of(texts(args@)));
        }
        let config = Config {
            query: args[1].clone(),
            filename: args[2].clone(),
            style,
            case_sensitive: !case_insensitive,
        };
        Ok((config, warnings))
    }
}

} // verus!
