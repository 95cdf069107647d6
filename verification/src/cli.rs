//! The program's arguments: which upstream resolver, if any, is to be used.

use vstd::prelude::*;
use vstd::string::StringExecFns;

verus! {

/// Why the arguments were refused.
#[derive(Clone, Copy, Debug, PartialEq, Eq, Structural)]
pub enum UsageError {
    /// Two arguments were given, and the first is not `--resolver`.
    UnrecognizedOption,
    /// The number of arguments is neither none nor two.
    WrongArguments,
}

/// The upstream resolver that the arguments name. `args` holds the program's
/// name and then its arguments. With no argument there is no upstream
/// resolver; with `--resolver` and an address the address names it; anything
/// else is refused.
pub fn parse_resolver(args: &Vec<String>) -> (result: Result<Option<String>, UsageError>)
    ensures
        args@.len() == 1 ==> result == Ok::<Option<String>, UsageError>(None),
        args@.len() == 3 && args@[1]@ == "--resolver"@ ==> result == Ok::<
            Option<String>,
            UsageError,
        >(Some(args@[2])),
        args@.len() == 3 && args@[1]@ != "--resolver"@ ==> result == Err::<
            Option<String>,
            UsageError,
        >(UsageError::UnrecognizedOption),
        args@.len() != 1 && args@.len() != 3 ==> result == Err::<Option<String>, UsageError>(
            UsageError::WrongArguments,
        ),
{
    if args.len() == 1 {
        Ok(None)
    } else if args.len() == 3 {
        let option = String::from_str("--resolver");
        if args[1] == option {
            Ok(Some(args[2].clone()))
        } else {
            Err(UsageError::UnrecognizedOption)
        }
    } else {
        Err(UsageError::WrongArguments)
    }
}

} // verus!
