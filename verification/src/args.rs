//! Reading the command line.

use vstd::prelude::*;
use crate::error::{missing_value_message, missing_value_text, CliError, CliErrorModel};
use crate::number::{parse_count, parsed_count};
use crate::text::views;

verus! {

/// What the command line asks for.
#[derive(Debug, PartialEq, Eq)]
pub struct ParsedOptions {
    /// The file to read.
    pub file_path: String,
    /// Words must be longer than this many bytes, if given.
    pub min_length: Option<usize>,
    /// Words must start with the lowercase form of this character, if
    /// given.
    pub starts_with: Option<char>,
}

/// The options, with the path as a sequence of characters.
pub struct OptionsModel {
    pub file_path: Seq<char>,
    pub min_length: Option<usize>,
    pub starts_with: Option<char>,
}

impl View for ParsedOptions {
    type V = OptionsModel;

    open spec fn view(&self) -> OptionsModel {
        OptionsModel {
            file_path: self.file_path@,
            min_length: self.min_length,
            starts_with: self.starts_with,
        }
    }
}

/// What the arguments say about one flag.
pub enum FlagLookup {
    /// The flag does not occur.
    Absent,
    /// The flag occurs and this argument follows its first occurrence.
    Value(Seq<char>),
    /// The first occurrence of the flag is the last argument.
    Dangling,
}

/// Index of the first argument at or after `from` that is exactly `flag`,
/// or `args.len()` when there is none.
pub open spec fn position_of(args: Seq<Seq<char>>, flag: Seq<char>, from: int) -> int
    decreases args.len() - from,
{
    if from >= args.len() {
        args.len() as int
    } else if args[from] == flag {
        from
    } else {
        position_of(args, flag, from + 1)
    }
}

/// Looks `flag` up in `args`. Only the first exact match counts, wherever
/// it stands, and the argument after it is its value whatever it looks
/// like.
pub open spec fn lookup_flag(args: Seq<Seq<char>>, flag: Seq<char>) -> FlagLookup {
    let at = position_of(args, flag, 0);
    if at >= args.len() {
        FlagLookup::Absent
    } else if at + 1 < args.len() {
        FlagLookup::Value(args[at + 1])
    } else {
        FlagLookup::Dangling
    }
}

/// The flag that sets the minimum length.
pub open spec fn min_length_flag() -> Seq<char> {
    "--min-length"@
}

/// The flag that sets the first character.
pub open spec fn starts_with_flag() -> Seq<char> {
    "--starts-with"@
}

/// The character that a value of the first-character flag stands for: its
/// first one. The rest of the value is ignored, and an empty value stands
/// for no character.
pub open spec fn first_char(value: Seq<char>) -> Option<char> {
    if value.len() > 0 {
        Some(value[0])
    } else {
        None
    }
}

/// The options that `args` ask for, or the failure that they end in. The
/// program name is `args[0]` and the file path `args[1]`. The flags are
/// looked up among all arguments; the minimum length is settled before the
/// first character is looked at.
pub open spec fn options_of(args: Seq<Seq<char>>) -> Result<OptionsModel, CliErrorModel> {
    if args.len() < 2 {
        Err(CliErrorModel::Usage)
    } else {
        match lookup_flag(args, min_length_flag()) {
            FlagLookup::Dangling => Err(CliErrorModel::MissingFlagValue { flag: min_length_flag() }),
            FlagLookup::Value(raw) if parsed_count(raw) is None => Err(
                CliErrorModel::InvalidFlagValue,
            ),
            found => match lookup_flag(args, starts_with_flag()) {
                FlagLookup::Dangling => Err(
                    CliErrorModel::MissingFlagValue { flag: starts_with_flag() },
                ),
                start => Ok(
                    OptionsModel {
                        file_path: args[1],
                        min_length: match found {
                            FlagLookup::Value(raw) => parsed_count(raw),
                            _ => None,
                        },
                        starts_with: match start {
                            FlagLookup::Value(raw) => first_char(raw),
                            _ => None,
                        },
                    },
                ),
            },
        }
    }
}

/// What `position_of` finds: no argument before it is the flag, and the
/// argument at it is, unless the arguments ran out.
pub proof fn lemma_position_of(args: Seq<Seq<char>>, flag: Seq<char>, from: int)
    requires
        0 <= from <= args.len(),
    ensures
        from <= position_of(args, flag, from) <= args.len(),
        forall|j: int| from <= j < position_of(args, flag, from) ==> args[j] != flag,
        position_of(args, flag, from) < args.len() ==> args[position_of(args, flag, from)] == flag,
    decreases args.len() - from,
{
    if from < args.len() && args[from] != flag {
        lemma_position_of(args, flag, from + 1);
    }
}

/// Finds the value of `flag` among `args`: the argument that follows the
/// first argument equal to `flag`. A flag that does not occur has no value,
/// which is no failure; a flag that is the last argument is one, and the
/// text that says so is returned.
pub fn get_flag_value(args: &[String], flag: &str) -> (result: Result<Option<String>, String>)
    ensures
        match lookup_flag(views(args@), flag@) {
            FlagLookup::Absent => result matches Ok(None),
            FlagLookup::Value(value) => result matches Ok(Some(found)) && found@ == value,
            FlagLookup::Dangling => result matches Err(message) && message@ == missing_value_text(
                flag@,
            ),
        },
{
    let wanted: String = flag.to_owned();
    let n: usize = args.len();
    let mut i: usize = 0;
    while i < n
        invariant
            n == args@.len(),
            wanted@ == flag@,
            0 <= i <= n,
            position_of(views(args@), flag@, 0) == position_of(views(args@), flag@, i as int),
        decreases n - i,
    {
        if args[i] == wanted {
            assert(views(args@)[i as int] == flag@);
            if i + 1 < n {
                return Ok(Some(args[i + 1].clone()));
            } else {
                return Err(missing_value_message(flag));
            }
        }
        assert(views(args@)[i as int] != flag@);
        i += 1;
    }
    Ok(None)
}

/// Reads the whole command line: the file path, then the minimum length,
/// then the first character. The first failure met in that order is
/// returned.
pub fn parse_options(args: &[String]) -> (result: Result<ParsedOptions, CliError>)
    ensures
        match result {
            Ok(options) => options_of(views(args@)) == Ok::<OptionsModel, CliErrorModel>(options@),
            Err(error) => options_of(views(args@)) == Err::<OptionsModel, CliErrorModel>(error@),
        },
{
    if args.len() < 2 {
        return Err(CliError::Usage);
    }
    let file_path = args[1].clone();
    let min_length: Option<usize> = match get_flag_value(args, "--min-length") {
        Err(_) => {
            return Err(CliError::MissingFlagValue { flag: "--min-length".to_owned() });
        },
        Ok(None) => None,
        Ok(Some(raw)) => match parse_count(raw.as_str()) {
            Some(n) => Some(n),
            None => {
                return Err(CliError::InvalidFlagValue);
            },
        },
    };
    let starts_with: Option<char> = match get_flag_value(args, "--starts-with") {
        Err(_) => {
            return Err(CliError::MissingFlagValue { flag: "--starts-with".to_owned() });
        },
        Ok(None) => None,
        Ok(Some(raw)) => {
            let mut chars = raw.as_str().chars();
            chars.next()
        },
    };
    Ok(ParsedOptions { file_path, min_length, starts_with })
}

} // verus!
