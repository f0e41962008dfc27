//! Command-line argument handling for the text-art tool.
//!
//! Parsing is a pure function from the argument vector to either a validated
//! [`CommandLineArgs`] value or an [`ArgsParsingError`]; no I/O happens here.

use vstd::prelude::*;

verus! {

/// Errors that can occur while parsing command-line arguments.
pub enum ArgsParsingError {
    /// No path to an input image was given; carries the user-facing message.
    NoFileProvided(String),
    /// An output dimension argument is not a valid `u32` numeral; carries the
    /// user-facing message.
    CannotParseWidthOrHeight(String),
    /// `-h` or `--help` was given somewhere on the command line.
    HelpRequested,
}

/// The command-line arguments relevant to one rendering run.
pub struct CommandLineArgs {
    pub image_path: String,
    pub output_width: u32,
    pub output_height: u32,
}

/// Whether `c` is one of the ASCII digits `'0'` through `'9'`.
pub open spec fn is_decimal_digit(c: char) -> bool {
    '0' as int <= c as int && c as int <= '9' as int
}

/// The numeric value of a decimal digit character.
pub open spec fn digit_value(c: char) -> int {
    c as int - '0' as int
}

/// The value of a sequence of decimal digits, most significant digit first.
pub open spec fn decimal_value(s: Seq<char>) -> int
    decreases s.len(),
{
    if s.len() == 0 {
        0
    } else {
        decimal_value(s.drop_last()) * 10 + digit_value(s.last())
    }
}

/// The digit part of a numeral: everything after an optional leading `'+'`.
pub open spec fn numeral_digits(s: Seq<char>) -> Seq<char> {
    if s.len() > 0 && s[0] == '+' {
        s.drop_first()
    } else {
        s
    }
}

/// Whether `s` is a numeral accepted as a `u32`: an optional leading `'+'`,
/// then at least one decimal digit, with a value that fits in `u32`.
pub open spec fn is_u32_numeral(s: Seq<char>) -> bool {
    &&& numeral_digits(s).len() > 0
    &&& (forall|i: int|
        0 <= i < numeral_digits(s).len() ==> is_decimal_digit(numeral_digits(s)[i]))
    &&& decimal_value(numeral_digits(s)) <= u32::MAX
}

/// A sequence of decimal digits has a non-negative value.
proof fn lemma_decimal_value_nonneg(s: Seq<char>)
    requires
        forall|i: int| 0 <= i < s.len() ==> is_decimal_digit(s[i]),
    ensures
        decimal_value(s) >= 0,
    decreases s.len(),
{
    if s.len() > 0 {
        lemma_decimal_value_nonneg(s.drop_last());
    }
}

/// Extending a digit string on the right can only increase its value.
proof fn lemma_decimal_value_prefix_le(s: Seq<char>, i: int)
    requires
        0 <= i <= s.len(),
        forall|j: int| 0 <= j < s.len() ==> is_decimal_digit(s[j]),
    ensures
        decimal_value(s.subrange(0, i)) <= decimal_value(s),
    decreases s.len() - i,
{
    if i == s.len() {
        assert(s.subrange(0, i) =~= s);
    } else {
        assert(s.subrange(0, i + 1).drop_last() =~= s.subrange(0, i));
        lemma_decimal_value_nonneg(s.subrange(0, i));
        lemma_decimal_value_prefix_le(s, i + 1);
    }
}

/// Whether `s` is one of the two help flags.
pub open spec fn is_help_flag(s: Seq<char>) -> bool {
    s == "-h"@ || s == "--help"@
}

/// Whether any argument on the command line requests the help text.
pub open spec fn help_requested(args: Seq<String>) -> bool {
    exists|i: int| 0 <= i < args.len() && is_help_flag(args[i]@)
}

/// Whether the width argument, if given, is a valid `u32` numeral.
pub open spec fn width_arg_ok(args: Seq<String>) -> bool {
    args.len() < 3 || is_u32_numeral(args[2]@)
}

/// Whether the height argument, if given, is a valid `u32` numeral.
pub open spec fn height_arg_ok(args: Seq<String>) -> bool {
    args.len() < 4 || is_u32_numeral(args[3]@)
}

/// The output width that a successful parse yields: the third argument when
/// given, the default size otherwise.
pub open spec fn spec_output_width(args: Seq<String>) -> int {
    if args.len() >= 3 {
        decimal_value(numeral_digits(args[2]@))
    } else {
        CommandLineArgs::DEFAULT_OUTPUT_SIZE as int
    }
}

/// The output height that a successful parse yields: the fourth argument when
/// given, the default size otherwise.
pub open spec fn spec_output_height(args: Seq<String>) -> int {
    if args.len() >= 4 {
        decimal_value(numeral_digits(args[3]@))
    } else {
        CommandLineArgs::DEFAULT_OUTPUT_SIZE as int
    }
}

/// Parses `s` as a `u32` numeral.  Returns `Some` exactly on the strings that
/// [`is_u32_numeral`] accepts, and then carries their decimal value.
pub fn parse_u32_numeral(s: &str) -> (r: Option<u32>)
    ensures
        is_u32_numeral(s@) ==> 0 <= decimal_value(numeral_digits(s@)) <= u32::MAX,
        is_u32_numeral(s@) ==> r == Some(decimal_value(numeral_digits(s@)) as u32),
        !is_u32_numeral(s@) ==> r is None,
{
    let n = s.unicode_len();
    let mut i: usize = 0;
    if n > 0 && s.get_char(0) == '+' {
        i = 1;
    }
    let ghost start = i as int;
    let ghost dig = numeral_digits(s@);
    proof {
        assert(dig =~= s@.subrange(start, s@.len() as int));
    }
    if i == n {
        return None;
    }
    let mut value: u64 = 0;
    while i < n
        invariant
            start <= i as int <= n,
            n == s@.len(),
            start == 0 || start == 1,
            dig == numeral_digits(s@),
            dig =~= s@.subrange(start, s@.len() as int),
            forall|j: int| 0 <= j < i - start ==> is_decimal_digit(dig[j]),
            value == decimal_value(dig.subrange(0, i - start)),
            value <= u32::MAX,
        decreases n - i,
    {
        let c = s.get_char(i);
        let cv = c as u32;
        if cv < 48 || cv > 57 {
            // A non-digit after the optional sign: not a numeral at all.
            assert(!is_decimal_digit(dig[i - start]));
            return None;
        }
        let d = (cv - 48) as u64;
        let next = value * 10 + d;
        proof {
            assert(dig.subrange(0, i - start + 1).drop_last() =~= dig.subrange(0, i - start));
        }
        if next > 0xffff_ffff {
            // The digits seen so far already exceed `u32::MAX`; more digits
            // can only increase the value, so no suffix can rescue it.
            proof {
                if forall|j: int| 0 <= j < dig.len() ==> is_decimal_digit(dig[j]) {
                    lemma_decimal_value_prefix_le(dig, i - start + 1);
                }
            }
            return None;
        }
        value = next;
        i = i + 1;
    }
    proof {
        assert(dig.subrange(0, n as int - start) =~= dig);
    }
    Some(value as u32)
}

impl CommandLineArgs {
    /// Output width and height used when the command line does not give them.
    pub const DEFAULT_OUTPUT_SIZE: u32 = 50;

    /// Parses the raw command-line arguments (program name included at index
    /// 0) into a validated configuration.
    ///
    /// A help flag anywhere on the line wins over everything else; otherwise
    /// a missing image path, an unparseable width, and an unparseable height
    /// are reported in that order.  Width and height default to
    /// [`DEFAULT_OUTPUT_SIZE`] when absent.
    pub fn parse(args: Vec<String>) -> (r: Result<Self, ArgsParsingError>)
        ensures
            (r matches Err(ArgsParsingError::HelpRequested)) <==> help_requested(args@),
            (r matches Err(ArgsParsingError::NoFileProvided(_))) <==> (!help_requested(args@)
                && args@.len() < 2),
            r matches Err(ArgsParsingError::NoFileProvided(m)) ==> m@
                == "A path to an input image is required\n"@,
            (r matches Err(ArgsParsingError::CannotParseWidthOrHeight(_))) <==> (
            !help_requested(args@) && args@.len() >= 2 && !(width_arg_ok(args@) && height_arg_ok(
                args@,
            ))),
            !help_requested(args@) && args@.len() >= 2 && !width_arg_ok(args@) ==> (r matches Err(
                ArgsParsingError::CannotParseWidthOrHeight(m),
            ) && m@ == "Unable to parse width '"@ + args@[2]@ + "'.\n"@),
            !help_requested(args@) && args@.len() >= 2 && width_arg_ok(args@) && !height_arg_ok(
                args@,
            ) ==> (r matches Err(ArgsParsingError::CannotParseWidthOrHeight(m)) && m@
                == "Unable to parse height '"@ + args@[3]@ + "'.\n"@),
            (r matches Ok(_)) <==> (!help_requested(args@) && args@.len() >= 2 && width_arg_ok(
                args@,
            ) && height_arg_ok(args@)),
            r matches Ok(c) ==> c.image_path@ == args@[1]@ && c.output_width
                == spec_output_width(args@) && c.output_height == spec_output_height(args@),
    {
        let short_flag = "-h".to_owned();
        let long_flag = "--help".to_owned();
        let mut k: usize = 0;
        while k < args.len()
            invariant
                0 <= k <= args@.len(),
                short_flag@ == "-h"@,
                long_flag@ == "--help"@,
                forall|i: int| 0 <= i < k ==> !is_help_flag(args@[i]@),
            decreases args@.len() - k,
        {
            if args[k] == short_flag || args[k] == long_flag {
                return Err(ArgsParsingError::HelpRequested);
            }
            k = k + 1;
        }
        assert(!help_requested(args@));

        if args.len() < 2 {
            return Err(ArgsParsingError::NoFileProvided(
                "A path to an input image is required\n".to_owned(),
            ));
        }
        let image_path = args[1].clone();

        let output_width: u32 = if args.len() >= 3 {
            match parse_u32_numeral(args[2].as_str()) {
                Some(w) => w,
                None => {
                    return Err(ArgsParsingError::CannotParseWidthOrHeight(
                        "Unable to parse width '".to_owned().concat(args[2].as_str()).concat(
                            "'.\n",
                        ),
                    ));
                },
            }
        } else {
            CommandLineArgs::DEFAULT_OUTPUT_SIZE
        };

        let output_height: u32 = if args.len() >= 4 {
            match parse_u32_numeral(args[3].as_str()) {
                Some(h) => h,
                None => {
                    return Err(ArgsParsingError::CannotParseWidthOrHeight(
                        "Unable to parse height '".to_owned().concat(args[3].as_str()).concat(
                            "'.\n",
                        ),
                    ));
                },
            }
        } else {
            CommandLineArgs::DEFAULT_OUTPUT_SIZE
        };

        Ok(CommandLineArgs { image_path, output_width, output_height })
    }
}

} // verus!
