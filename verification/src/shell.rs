//! Shell command text: quoting an argument vector for bash, and checking that a project's dev
//! server script is one plain command.
use vstd::prelude::*;

use crate::text::{trim, trimmed, views};

verus! {

/// The words that `shlex::split` reads from a text, or none when the text is not valid
/// command text (an unclosed quote, a trailing backslash).
pub uninterp spec fn shlex_split_of(text: Seq<char>) -> Option<Seq<Seq<char>>>;

/// The single string that `shlex::try_join` quotes a list of words into.
pub uninterp spec fn shlex_joined(words: Seq<Seq<char>>) -> Seq<char>;

/// Calls `shlex::split`. Claimed: the result is a function of the text alone (named
/// `shlex_split_of`). It never panics: it gives `None` where the text cannot be read.
#[verifier::external_body]
fn shlex_split(text: &str) -> (r: Option<Vec<String>>)
    ensures
        match r {
            Some(words) => shlex_split_of(text@) == Some(views(words@)),
            None => shlex_split_of(text@) is None,
        },
{
    shlex::split(text)
}

/// Calls `shlex::try_join`. Claimed, as its source shows: it fails exactly when some word
/// holds a nul character, and otherwise gives a function of the words alone (named
/// `shlex_joined`), which `shlex::split` reads back as the same words (each word is written
/// bare, in single quotes, or in double quotes with `"` and backslash escaped, and the words are
/// separated by single spaces; the crate documents that its output recovers the words).
#[verifier::external_body]
fn shlex_try_join(words: &Vec<String>) -> (r: Option<String>)
    ensures
        match r {
            Some(s) => s@ == shlex_joined(views(words@)) && shlex_split_of(s@) == Some(views(words@))
                && !(exists|i: int, j: int|
                0 <= i < words@.len() && 0 <= j < words@[i]@.len() && #[trigger] words@[i]@[j] == '\0'),
            None => exists|i: int, j: int|
                0 <= i < words@.len() && 0 <= j < words@[i]@.len() && #[trigger] words@[i]@[j] == '\0',
        },
{
    match shlex::try_join(words.iter().map(|w| w.as_str())) {
        Ok(s) => Some(s),
        Err(_) => None,
    }
}

/// Why an argument vector could not be quoted: one of its words holds a nul character.
#[derive(Clone, Copy, Debug, PartialEq, Eq, Structural)]
pub enum QuoteFailure {
    Nul,
}

/// The program and its arguments quoted into one line that bash reads back as the same
/// words: splitting the line gives the program and its arguments again. Fails when a word
/// holds a nul character.
pub fn join_program_and_args_for_bash(program_path: &str, args: &Vec<String>) -> (r: Result<String, QuoteFailure>)
    ensures
        ({
            let words = seq![program_path@] + views(args@);
            match r {
                Ok(s) => s@ == shlex_joined(words) && shlex_split_of(s@) == Some(words) && !(exists|i: int, j: int|
                    0 <= i < words.len() && 0 <= j < words[i].len() && #[trigger] words[i][j] == '\0'),
                Err(_) => exists|i: int, j: int|
                    0 <= i < words.len() && 0 <= j < words[i].len() && #[trigger] words[i][j] == '\0',
            }
        }),
{
    let mut parts: Vec<String> = Vec::new();
    parts.push(program_path.to_owned());
    let mut i: usize = 0;
    while i < args.len()
        invariant
            i <= args.len(),
            views(parts@) == seq![program_path@] + views(args@).take(i as int),
        decreases args.len() - i,
    {
        let ghost before = views(parts@);
        parts.push(args[i].clone());
        proof {
            assert(views(parts@) =~= before.push(args@[i as int]@));
            assert(views(args@).take(i + 1) =~= views(args@).take(i as int).push(args@[i as int]@));
        }
        i = i + 1;
    }
    proof {
        assert(views(args@).take(i as int) =~= views(args@));
        let words = seq![program_path@] + views(args@);
        assert(views(parts@) == words);
        assert forall|a: int, b: int|
            0 <= a < words.len() && 0 <= b < words[a].len() implies (#[trigger] words[a][b] == '\0') == (
            parts@[a]@[b] == '\0') by {
            assert(views(parts@)[a] == parts@[a]@);
        }
        if exists|a: int, b: int| 0 <= a < parts@.len() && 0 <= b < parts@[a]@.len() && #[trigger] parts@[a]@[b] == '\0' {
            let (a, b) = choose|a: int, b: int|
                0 <= a < parts@.len() && 0 <= b < parts@[a]@.len() && #[trigger] parts@[a]@[b] == '\0';
            assert(views(parts@)[a] == parts@[a]@);
            assert(words[a][b] == '\0');
        }
        if exists|a: int, b: int| 0 <= a < words.len() && 0 <= b < words[a].len() && #[trigger] words[a][b] == '\0' {
            let (a, b) = choose|a: int, b: int|
                0 <= a < words.len() && 0 <= b < words[a].len() && #[trigger] words[a][b] == '\0';
            assert(views(parts@)[a] == parts@[a]@);
            assert(parts@[a]@[b] == '\0');
        }
    }
    match shlex_try_join(&parts) {
        Some(s) => Ok(s),
        None => Err(QuoteFailure::Nul),
    }
}

/// Why a dev server script is refused.
#[derive(Clone, Copy, Debug, PartialEq, Eq, Structural)]
pub enum DevScriptError {
    /// "No dev server script configured for this project".
    Missing,
    /// "Dev script is not valid command text".
    Unparsable,
    /// "Dev script command is empty".
    EmptyCommand,
    /// "Dev script must be a single command without shell operators".
    ShellOperator,
}

impl DevScriptError {
    /// The message the API answers with.
    pub fn message(&self) -> (r: &'static str)
        ensures
            r@ == match *self {
                DevScriptError::Missing => "No dev server script configured for this project"@,
                DevScriptError::Unparsable => "Dev script is not valid command text"@,
                DevScriptError::EmptyCommand => "Dev script command is empty"@,
                DevScriptError::ShellOperator => "Dev script must be a single command without shell operators"@,
            },
    {
        match self {
            DevScriptError::Missing => "No dev server script configured for this project",
            DevScriptError::Unparsable => "Dev script is not valid command text",
            DevScriptError::EmptyCommand => "Dev script command is empty",
            DevScriptError::ShellOperator => "Dev script must be a single command without shell operators",
        }
    }
}

/// The words that would chain, pipe or redirect commands.
pub open spec fn is_shell_operator(w: Seq<char>) -> bool {
    w == "|"@ || w == "||"@ || w == "&"@ || w == "&&"@ || w == ";"@ || w == ">"@ || w == ">>"@
        || w == "<"@ || w == "<<"@
}

/// What is wrong with a dev server script given the words its trimmed text splits into:
/// nothing, when it is one command with no shell operator among its words.
pub open spec fn dev_script_error(script: Seq<char>, words: Option<Seq<Seq<char>>>) -> Option<DevScriptError> {
    if trim(script).len() == 0 {
        Some(DevScriptError::Missing)
    } else {
        match words {
            None => Some(DevScriptError::Unparsable),
            Some(ws) => if ws.len() == 0 {
                Some(DevScriptError::EmptyCommand)
            } else if exists|i: int| 0 <= i < ws.len() && is_shell_operator(#[trigger] ws[i]) {
                Some(DevScriptError::ShellOperator)
            } else {
                None
            },
        }
    }
}

fn is_operator_word(w: &String) -> (r: bool)
    ensures
        r == is_shell_operator(w@),
{
    *w == "|".to_owned() || *w == "||".to_owned() || *w == "&".to_owned() || *w == "&&".to_owned()
        || *w == ";".to_owned() || *w == ">".to_owned() || *w == ">>".to_owned() || *w
        == "<".to_owned() || *w == "<<".to_owned()
}

/// Decides whether the words of a script are acceptable (see `dev_script_error`).
#[verifier::loop_isolation(false)]
pub fn check_dev_script_words(script: &str, words: Option<Vec<String>>) -> (r: Result<(), DevScriptError>)
    ensures
        match dev_script_error(
            script@,
            match words {
                Some(ws) => Some(views(ws@)),
                None => None,
            },
        ) {
            Some(e) => r == Err::<(), DevScriptError>(e),
            None => r is Ok,
        },
{
    if crate::text::blank(script) {
        return Err(DevScriptError::Missing);
    }
    let ws = match words {
        Some(ws) => ws,
        None => {
            return Err(DevScriptError::Unparsable);
        },
    };
    if ws.len() == 0 {
        return Err(DevScriptError::EmptyCommand);
    }
    let mut i: usize = 0;
    while i < ws.len()
        invariant
            i <= ws.len(),
            forall|k: int| 0 <= k < i ==> !is_shell_operator(#[trigger] views(ws@)[k]),
        decreases ws.len() - i,
    {
        if is_operator_word(&ws[i]) {
            proof {
                assert(is_shell_operator(views(ws@)[i as int]));
            }
            return Err(DevScriptError::ShellOperator);
        }
        i = i + 1;
    }
    Ok(())
}

/// Checks that a project's dev server script is one command without shell operators, as
/// `shlex` splits its trimmed text.
pub fn validate_dev_server_script(script: &str) -> (r: Result<(), DevScriptError>)
    ensures
        match dev_script_error(script@, shlex_split_of(trim(script@))) {
            Some(e) => r == Err::<(), DevScriptError>(e),
            None => r is Ok,
        },
{
    if crate::text::blank(script) {
        return Err(DevScriptError::Missing);
    }
    let t = trimmed(script);
    let words = shlex_split(t.as_str());
    check_dev_script_words(script, words)
}

} // verus!
