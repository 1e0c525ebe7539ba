//! The validated run configuration and the argument parser.

use crate::text::str_eq;
use vstd::prelude::*;

verus! {

/// The token introduces a file path.
pub open spec fn is_file_flag(t: Seq<char>) -> bool {
    t == "--file"@ || t == "-f"@
}

/// The token introduces a search term.
pub open spec fn is_word_flag(t: Seq<char>) -> bool {
    t == "--word"@ || t == "-w"@
}

/// The token switches case-insensitive search on.
pub open spec fn is_ic_flag(t: Seq<char>) -> bool {
    t == "--ignore_case"@ || t == "-ic"@
}

/// The token is a flag that consumes the following token as its value.
pub open spec fn is_value_flag(t: Seq<char>) -> bool {
    is_file_flag(t) || is_word_flag(t)
}

/// Maps an optional string to its optional view.
pub open spec fn opt_view(o: Option<String>) -> Option<Seq<char>> {
    match o {
        Some(s) => Some(s@),
        None => None,
    }
}

/// Why an argument sequence was rejected.
#[derive(Clone, Copy, Debug, PartialEq, Eq, Structural)]
pub enum ParseError {
    /// Fewer than four tokens were supplied.
    NotEnoughArguments,
    /// A value flag stood last, with no value after it.
    MissingValue,
    /// The file path or the search term was never set.
    MissingRequiredArgument,
}

/// One left-to-right pass over the tokens from position `i`, carrying the
/// values gathered so far. A value flag takes the next token as its value and
/// skips it (so its last occurrence wins); the case flag sets `ic`; any other
/// token is ignored. A value flag in last position fails with `MissingValue`.
pub open spec fn scan(
    args: Seq<Seq<char>>,
    i: int,
    file: Option<Seq<char>>,
    word: Option<Seq<char>>,
    ic: bool,
) -> Result<(Option<Seq<char>>, Option<Seq<char>>, bool), ParseError>
    decreases args.len() - i,
{
    if i >= args.len() {
        Ok((file, word, ic))
    } else if is_file_flag(args[i]) {
        if i + 1 >= args.len() {
            Err(ParseError::MissingValue)
        } else {
            scan(args, i + 2, Some(args[i + 1]), word, ic)
        }
    } else if is_word_flag(args[i]) {
        if i + 1 >= args.len() {
            Err(ParseError::MissingValue)
        } else {
            scan(args, i + 2, file, Some(args[i + 1]), ic)
        }
    } else if is_ic_flag(args[i]) {
        scan(args, i + 1, file, word, true)
    } else {
        scan(args, i + 1, file, word, ic)
    }
}

/// What `Config::build` returns on a token sequence: `NotEnoughArguments`
/// below four tokens; otherwise the scan's failure, or the scanned
/// (file path, search term, ignore-case) triple, with
/// `MissingRequiredArgument` when either required value was never set.
pub open spec fn build_spec(args: Seq<Seq<char>>) -> Result<
    (Seq<char>, Seq<char>, bool),
    ParseError,
> {
    if args.len() < 4 {
        Err(ParseError::NotEnoughArguments)
    } else {
        match scan(args, 0, None, None, false) {
            Err(e) => Err(e),
            Ok((file, word, ic)) => match (file, word) {
                (Some(f), Some(w)) => Ok((f, w, ic)),
                _ => Err(ParseError::MissingRequiredArgument),
            },
        }
    }
}

/// For any file path and search term, the four-token argument sequence
/// giving the two required flags with their values parses to exactly those
/// values, in either flag order, with case sensitivity at its default.
pub proof fn lemma_build_flag_order(f: Seq<char>, w: Seq<char>)
    ensures
        build_spec(seq!["--file"@, f, "--word"@, w]) == Ok::<(Seq<char>, Seq<char>, bool), ParseError>(
            (f, w, false),
        ),
        build_spec(seq!["--word"@, w, "--file"@, f]) == Ok::<(Seq<char>, Seq<char>, bool), ParseError>(
            (f, w, false),
        ),
{
    reveal_strlit("--file");
    reveal_strlit("--word");
    reveal_strlit("-f");
    reveal_strlit("-w");
    assert("--word"@ != "--file"@) by {
        assert("--word"@[2] == 'w' && "--file"@[2] == 'f');
    }
    assert("--word"@ != "-f"@) by {
        assert("--word"@.len() == 6 && "-f"@.len() == 2);
    }
    let a1 = seq!["--file"@, f, "--word"@, w];
    assert(scan(a1, 4, Some(f), Some(w), false) == Ok::<
        (Option<Seq<char>>, Option<Seq<char>>, bool),
        ParseError,
    >((Some(f), Some(w), false)));
    assert(scan(a1, 2, Some(f), None, false) == scan(a1, 4, Some(f), Some(w), false));
    assert(scan(a1, 0, None, None, false) == scan(a1, 2, Some(f), None, false));
    let a2 = seq!["--word"@, w, "--file"@, f];
    assert(scan(a2, 4, Some(f), Some(w), false) == Ok::<
        (Option<Seq<char>>, Option<Seq<char>>, bool),
        ParseError,
    >((Some(f), Some(w), false)));
    assert(scan(a2, 2, None, Some(w), false) == scan(a2, 4, Some(f), Some(w), false));
    assert(scan(a2, 0, None, None, false) == scan(a2, 2, None, Some(w), false));
}

/// Below four tokens, parsing fails with `NotEnoughArguments`, whatever the
/// tokens are.
pub proof fn lemma_build_not_enough(args: Seq<Seq<char>>)
    requires
        args.len() < 4,
    ensures
        build_spec(args) == Err::<(Seq<char>, Seq<char>, bool), ParseError>(
            ParseError::NotEnoughArguments,
        ),
{
}

/// The scan fails with `MissingValue` when the last token is a value flag
/// and no token before it is one (an earlier value flag could swallow a
/// later one as its value).
proof fn lemma_scan_value_flag_last(
    args: Seq<Seq<char>>,
    i: int,
    file: Option<Seq<char>>,
    word: Option<Seq<char>>,
    ic: bool,
)
    requires
        0 <= i <= args.len() - 1,
        is_value_flag(args[args.len() - 1]),
        forall|j: int| 0 <= j < args.len() - 1 ==> !is_value_flag(#[trigger] args[j]),
    ensures
        scan(args, i, file, word, ic) == Err::<
            (Option<Seq<char>>, Option<Seq<char>>, bool),
            ParseError,
        >(ParseError::MissingValue),
    decreases args.len() - i,
{
    if i < args.len() - 1 {
        if is_ic_flag(args[i]) {
            lemma_scan_value_flag_last(args, i + 1, file, word, true);
        } else {
            lemma_scan_value_flag_last(args, i + 1, file, word, ic);
        }
    }
}

/// A value flag standing as the last token fails the parse with
/// `MissingValue`, provided no earlier token is itself a value flag.
pub proof fn lemma_build_missing_value(args: Seq<Seq<char>>)
    requires
        args.len() >= 4,
        is_value_flag(args[args.len() - 1]),
        forall|j: int| 0 <= j < args.len() - 1 ==> !is_value_flag(#[trigger] args[j]),
    ensures
        build_spec(args) == Err::<(Seq<char>, Seq<char>, bool), ParseError>(
            ParseError::MissingValue,
        ),
{
    lemma_scan_value_flag_last(args, 0, None, None, false);
}

/// With no search-term flag anywhere, the scan can never set the term, and
/// succeeds (with the term unset) as long as the last token is not a value
/// flag.
proof fn lemma_scan_no_word(args: Seq<Seq<char>>, i: int, file: Option<Seq<char>>, ic: bool)
    requires
        0 <= i <= args.len(),
        args.len() > 0,
        forall|j: int| 0 <= j < args.len() ==> !is_word_flag(#[trigger] args[j]),
        !is_value_flag(args[args.len() - 1]),
    ensures
        scan(args, i, file, None, ic) matches Ok(t) && t.1 is None,
    decreases args.len() - i,
{
    if i < args.len() {
        if is_file_flag(args[i]) {
            lemma_scan_no_word(args, i + 2, Some(args[i + 1]), ic);
        } else if is_ic_flag(args[i]) {
            lemma_scan_no_word(args, i + 1, file, true);
        } else {
            lemma_scan_no_word(args, i + 1, file, ic);
        }
    }
}

/// An argument sequence of at least four tokens in which the search-term
/// flag never occurs fails with `MissingRequiredArgument` — provided its
/// last token is not a value flag, which would already fail with
/// `MissingValue`.
pub proof fn lemma_build_missing_word(args: Seq<Seq<char>>)
    requires
        args.len() >= 4,
        forall|j: int| 0 <= j < args.len() ==> !is_word_flag(#[trigger] args[j]),
        !is_value_flag(args[args.len() - 1]),
    ensures
        build_spec(args) == Err::<(Seq<char>, Seq<char>, bool), ParseError>(
            ParseError::MissingRequiredArgument,
        ),
{
    lemma_scan_no_word(args, 0, None, false);
}

impl ParseError {
    /// A diagnostic line naming the failure.
    pub fn message(&self) -> (r: String)
        ensures
            *self is NotEnoughArguments ==> r@ == "Not enough arguments"@,
            *self is MissingValue ==> r@ == "Missing value after a flag"@,
            *self is MissingRequiredArgument ==> r@ == "Some arguments are missed"@,
    {
        match self {
            ParseError::NotEnoughArguments => "Not enough arguments".to_owned(),
            ParseError::MissingValue => "Missing value after a flag".to_owned(),
            ParseError::MissingRequiredArgument => "Some arguments are missed".to_owned(),
        }
    }
}

/// Validated run parameters: file path, search term, case sensitivity.
pub struct Config {
    pub filename: String,
    pub word: String,
    pub ignore_case: bool,
}

impl Config {
    /// The search term.
    pub fn word(&self) -> (r: &String)
        ensures
            r@ == self.word@,
    {
        &self.word
    }

    /// The file path.
    pub fn filename(&self) -> (r: &String)
        ensures
            r@ == self.filename@,
    {
        &self.filename
    }

    /// Whether the search ignores case.
    pub fn ignore_case(&self) -> (r: bool)
        ensures
            r == self.ignore_case,
    {
        self.ignore_case
    }

    /// Packs the three fields into a `Config`.
    pub fn new(filename: String, word: String, ignore_case: bool) -> (c: Config)
        ensures
            c.filename@ == filename@,
            c.word@ == word@,
            c.ignore_case == ignore_case,
    {
        Config { filename, word, ignore_case }
    }

    /// Parses a raw token sequence into a `Config`, exactly as `build_spec`
    /// describes: flags in any order, unrecognized tokens ignored, the last
    /// occurrence of a value flag winning.
    pub fn build(params: &Vec<String>) -> (r: Result<Config, ParseError>)
        ensures
            match r {
                Ok(c) => {
                    &&& build_spec(params.deep_view()) matches Ok(t)
                    &&& c.filename@ == t.0
                    &&& c.word@ == t.1
                    &&& c.ignore_case == t.2
                },
                Err(e) => build_spec(params.deep_view()) == Err::<
                    (Seq<char>, Seq<char>, bool),
                    ParseError,
                >(e),
            },
    {
        let ghost args = params.deep_view();
        let mut filename: Option<String> = None;
        let mut word: Option<String> = None;
        let mut ignore_case: bool = false;
        if params.len() < 4 {
            return Err(ParseError::NotEnoughArguments);
        }
        let mut i: usize = 0;
        while i < params.len()
            invariant
                i <= params.len(),
                args == params.deep_view(),
                args.len() == params.len(),
                args.len() >= 4,
                scan(args, 0, None, None, false) == scan(
                    args,
                    i as int,
                    opt_view(filename),
                    opt_view(word),
                    ignore_case,
                ),
            decreases params.len() - i,
        {
            proof {
                assert(args[i as int] == params[i as int]@);
            }
            let t = &params[i];
            if str_eq(t.as_str(), "--file") || str_eq(t.as_str(), "-f") {
                if i + 1 >= params.len() {
                    return Err(ParseError::MissingValue);
                }
                proof {
                    assert(args[i + 1] == params[i + 1]@);
                }
                filename = Some(params[i + 1].clone());
                i = i + 2;
            } else if str_eq(t.as_str(), "--word") || str_eq(t.as_str(), "-w") {
                if i + 1 >= params.len() {
                    return Err(ParseError::MissingValue);
                }
                proof {
                    assert(args[i + 1] == params[i + 1]@);
                }
                word = Some(params[i + 1].clone());
                i = i + 2;
            } else if str_eq(t.as_str(), "--ignore_case") || str_eq(t.as_str(), "-ic") {
                ignore_case = true;
                i = i + 1;
            } else {
                i = i + 1;
            }
        }
        match (filename, word) {
            (Some(f), Some(w)) => Ok(Config { filename: f, word: w, ignore_case }),
            _ => Err(ParseError::MissingRequiredArgument),
        }
    }
}

} // verus!
