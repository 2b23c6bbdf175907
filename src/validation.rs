//! Names of new addon and entity directories.
use vstd::prelude::*;

verus! {

/// Whether a regular expression compiles.
pub uninterp spec fn regex_compiles(pattern: Seq<char>) -> bool;

/// Whether a compiled regular expression matches anywhere in a text.
pub uninterp spec fn regex_finds(pattern: Seq<char>, text: Seq<char>) -> bool;

/// Relies on `regex::Regex::new`, which compiles `pattern` or fails, and on
/// `Regex::is_match`, which tells whether the regex matches anywhere in `text`.
#[verifier::external_body]
fn regex_is_match(pattern: &str, text: &str) -> (r: Option<bool>)
    ensures
        r == (if regex_compiles(pattern@) {
            Some(regex_finds(pattern@, text@))
        } else {
            None::<bool>
        }),
{
    regex::Regex::new(pattern).ok().map(|re| re.is_match(text))
}

/// Matches a character that is not a letter, digit, `_` or `-`.
pub const DIRNAME_FORBIDDEN: &'static str = r"[^\w\d_-]";

/// Why a directory name was refused.
#[derive(Debug, Clone, Copy, PartialEq, Eq, Structural)]
pub enum DirnameError {
    /// The name holds a character other than letters, digits, `_` and `-`.
    InvalidCharacters,
    /// A directory of that name already exists.
    AlreadyExists,
    /// The rule for names could not be compiled.
    RuleUnavailable,
}

impl DirnameError {
    /// The message shown for the error.
    pub fn message(&self) -> (r: String)
        ensures
            *self == DirnameError::InvalidCharacters ==> r@
                == "The directory name should only contain letters, numbers, dashes and underscores! Example: my_new_name"@,
            *self == DirnameError::AlreadyExists ==> r@ == "Directory with specified name already exists!"@,
            *self == DirnameError::RuleUnavailable ==> r@ == "The rule for directory names could not be compiled!"@,
    {
        match self {
            DirnameError::InvalidCharacters => "The directory name should only contain letters, numbers, dashes and underscores! Example: my_new_name".to_string(),
            DirnameError::AlreadyExists => "Directory with specified name already exists!".to_string(),
            DirnameError::RuleUnavailable => "The rule for directory names could not be compiled!".to_string(),
        }
    }
}

/// Decides on a directory name, given whether it holds a forbidden character
/// and whether a directory of that name already exists; the first check wins.
pub fn dirname_verdict(input: &str, has_forbidden: bool, exists: bool) -> (r: Result<String, DirnameError>)
    ensures
        has_forbidden ==> r == Err::<String, DirnameError>(DirnameError::InvalidCharacters),
        !has_forbidden && exists ==> r == Err::<String, DirnameError>(DirnameError::AlreadyExists),
        !has_forbidden && !exists ==> r is Ok && r->Ok_0@ == input@,
{
    if has_forbidden {
        Err(DirnameError::InvalidCharacters)
    } else if exists {
        Err(DirnameError::AlreadyExists)
    } else {
        Ok(input.to_string())
    }
}

/// Checks a name for a new directory: only letters, digits, `_` and `-`, and,
/// where `exists` says so, no directory of that name yet.
pub fn validate_input_dirname(input: &str, exists: bool) -> (r: Result<String, DirnameError>)
    ensures
        !regex_compiles(DIRNAME_FORBIDDEN@) ==> r == Err::<String, DirnameError>(DirnameError::RuleUnavailable),
        regex_compiles(DIRNAME_FORBIDDEN@) ==> {
            let bad = regex_finds(DIRNAME_FORBIDDEN@, input@);
            &&& bad ==> r == Err::<String, DirnameError>(DirnameError::InvalidCharacters)
            &&& !bad && exists ==> r == Err::<String, DirnameError>(DirnameError::AlreadyExists)
            &&& !bad && !exists ==> r is Ok && r->Ok_0@ == input@
        },
{
    match regex_is_match(DIRNAME_FORBIDDEN, input) {
        None => Err(DirnameError::RuleUnavailable),
        Some(bad) => dirname_verdict(input, bad, exists),
    }
}

/// The position of the first option equal to `choice`.
pub fn position_of(options: &Vec<String>, choice: &String) -> (r: Option<usize>)
    ensures
        match r {
            Some(i) => i < options@.len() && options@[i as int]@ == choice@ && forall|j: int|
                0 <= j < i ==> options@[j]@ != choice@,
            None => forall|j: int| 0 <= j < options@.len() ==> options@[j]@ != choice@,
        },
{
    let mut i: usize = 0;
    while i < options.len()
        invariant
            i <= options@.len(),
            forall|j: int| 0 <= j < i ==> options@[j]@ != choice@,
        decreases options.len() - i,
    {
        if options[i] == *choice {
            return Some(i);
        }
        i += 1;
    }
    None
}

} // verus!
