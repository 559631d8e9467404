//! The decisions of the read-parse-spawn loop.

use vstd::prelude::*;
use vstd::string::StringExecFns;
use crate::digits::dec_str;
use crate::digits::u64_to_string;
use crate::parse::{tokens, views_of, parse_line, lemma_tokens_trimmed, lemma_tokens_wf};
use crate::text::{trimmed, trim_line, str_eq};

verus! {

/// What the loop does with one input line.
pub enum Action {
    /// The exit keyword: leave the loop.
    Quit,
    /// A line with no token: spawn nothing, read the next line.
    Skip,
    /// Spawn `command` with `args`, in the background iff `background`.
    Run { command: String, args: Vec<String>, background: bool },
}

/// The literal token that switches a command to the background.
pub open spec fn amp() -> Seq<char> {
    "&"@
}

/// The argument list holds the literal token `&` somewhere.
pub open spec fn has_amp(args: Seq<Seq<char>>) -> bool {
    exists|k: int| 0 <= k < args.len() && #[trigger] args[k] == amp()
}

/// Decides whether the literal token `&` occurs among the arguments.
pub fn is_background(args: &Vec<&str>) -> (r: bool)
    ensures
        r == has_amp(views_of(args@)),
{
    let n = args.len();
    let mut i: usize = 0;
    while i < n
        invariant
            0 <= i <= n == args@.len(),
            forall|k: int| 0 <= k < i ==> #[trigger] args@[k]@ != amp(),
        decreases n - i,
    {
        if str_eq(args[i], "&") {
            proof {
                assert(views_of(args@)[i as int] == amp());
            }
            return true;
        }
        i = i + 1;
    }
    proof {
        assert forall|k: int| 0 <= k < views_of(args@).len() implies #[trigger] views_of(args@)[k]
            != amp() by {
            assert(views_of(args@)[k] == args@[k]@);
        }
    }
    false
}

/// Decides what one raw input line asks the loop to do:
/// - the line whose trimmed form is exactly `quit` ends the loop;
/// - a line with no token is skipped;
/// - any other line runs its first token as the command with the remaining
///   tokens as arguments, in the background iff some argument is the
///   literal token `&`.
pub fn plan_line(raw: &str) -> (a: Action)
    ensures
        a is Quit <==> trimmed(raw@) == "quit"@,
        a is Skip <==> trimmed(raw@) != "quit"@ && tokens(raw@).len() == 0,
        (a matches Action::Run { command, args, background } ==> {
            &&& trimmed(raw@) != "quit"@
            &&& tokens(raw@).len() > 0
            &&& command@ == tokens(raw@)[0]
            &&& command@.len() > 0
            &&& args@.map_values(|t: String| t@) =~= tokens(raw@).drop_first()
            &&& background == has_amp(tokens(raw@).drop_first())
        }),
{
    let t = trim_line(raw);
    if str_eq(t.as_str(), "quit") {
        return Action::Quit;
    }
    proof {
        lemma_tokens_trimmed(raw@);
    }
    let (command, args) = parse_line(t.as_str());
    if command.is_empty() {
        proof {
            if tokens(raw@).len() > 0 {
                lemma_tokens_wf(raw@);
            }
        }
        return Action::Skip;
    }
    proof {
        if tokens(raw@).len() == 0 {
            assert(command@ =~= Seq::<char>::empty());
        }
    }
    let background = is_background(&args);
    let command_owned = command.to_owned();
    let mut args_owned: Vec<String> = Vec::new();
    let n = args.len();
    let mut i: usize = 0;
    while i < n
        invariant
            0 <= i <= n == args@.len(),
            args_owned@.len() == i,
            forall|k: int| 0 <= k < i ==> #[trigger] args_owned@[k]@ == args@[k]@,
        decreases n - i,
    {
        args_owned.push(args[i].to_owned());
        i = i + 1;
    }
    proof {
        assert(args_owned@.map_values(|t: String| t@) =~= views_of(args@));
    }
    Action::Run { command: command_owned, args: args_owned, background }
}

/// What the launcher announces for a background start.
pub open spec fn background_message_spec(id: nat) -> Seq<char> {
    "Started "@ + dec_str(id) + " in background"@
}

/// Builds the line announcing a background start: the word `Started`, the
/// decimal process identifier, and `in background`.
pub fn background_message(id: u64) -> (m: String)
    ensures
        m@ == background_message_spec(id as nat),
{
    let mut m = String::from_str("Started ");
    let num = u64_to_string(id);
    m.append(num.as_str());
    m.append(" in background");
    proof {
        assert(m@ =~= background_message_spec(id as nat));
    }
    m
}

/// What the launcher does once the child process is started.
pub enum Followup {
    /// Foreground: block until the child exits.
    Wait,
    /// Background: print `message` and do not wait.
    Announce { message: String },
}

/// Decides what follows a spawn: a foreground launch is waited on; a
/// background launch is announced with its process identifier and left
/// untracked.
pub fn follow_up(background: bool, child_id: u64) -> (f: Followup)
    ensures
        f is Wait <==> !background,
        (f matches Followup::Announce { message } ==> background && message@
            == background_message_spec(child_id as nat)),
{
    if background {
        Followup::Announce { message: background_message(child_id) }
    } else {
        Followup::Wait
    }
}

} // verus!
