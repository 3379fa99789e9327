//! What each command decides: the text it prints and the changes it makes,
//! given what was read. Running the commands (reading repositories, touching
//! files, printing) is the program's part.
pub mod detail;
pub mod register;
pub mod run;
pub mod shell;
pub mod show;
pub mod status;

use vstd::prelude::*;

use crate::text::{owned, push_str};

verus! {

/// The two bare words answered before an alias is looked up. Both are
/// reserved aliases, so answering them cannot shadow anybody's repo.
#[derive(Debug, Clone, Copy, PartialEq, Eq, Structural)]
pub enum BareWord {
    Version,
    Help,
}

/// Which bare word, if either, `word` is.
pub fn bare_word(word: &str) -> (res: Option<BareWord>)
    ensures
        res == (if word@ == "version"@ {
            Some(BareWord::Version)
        } else if word@ == "help"@ {
            Some(BareWord::Help)
        } else {
            None
        }),
{
    if crate::text::same_text(word, "version") {
        Some(BareWord::Version)
    } else if crate::text::same_text(word, "help") {
        Some(BareWord::Help)
    } else {
        None
    }
}

/// What `grit help <name>` says when `name` is no command.
pub open spec fn not_a_command_text(name: Seq<char>) -> Seq<char> {
    "`"@ + name + "` is not a grit command\nrun `grit help` for the list, or `grit show` if you meant an alias"@
}

/// What `grit help <name>` says when `name` is no command.
pub fn not_a_command_message(name: &str) -> (res: String)
    ensures
        res@ == not_a_command_text(name@),
{
    let mut s = owned("`");
    push_str(&mut s, name);
    push_str(&mut s, "` is not a grit command\nrun `grit help` for the list, or `grit show` if you meant an alias");
    s
}

} // verus!
