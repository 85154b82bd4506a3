//! Kiosk session lifecycle: the state machine driving the managed OS
//! account between contestants, the login-manager configuration text
//! it rewrites, and the privileged command sequences it runs.
//!
//! Each transition is a sequence of privileged OS operations executed
//! outside this library; the first failing step aborts the sequence
//! with no rollback. The library decides the sequences and the
//! configuration text; the executor reports which step failed.

use vstd::prelude::*;

use crate::textutil::{spec_join, spec_split, spec_trim, join_newlines, split_char, str_eq,
    trim_str};

verus! {

/// Kiosk lifecycle states.
#[derive(Clone, Copy, Debug, PartialEq, Eq, Structural)]
pub enum SessionState {
    /// No autologin configured; nobody can sit down.
    Locked,
    /// Autologin configured for the managed account.
    ReadyForContestant,
    /// A contestant session is open.
    Active,
}

/// Kiosk lifecycle operations.
#[derive(Clone, Copy, Debug, PartialEq, Eq, Structural)]
pub enum SessionOp {
    /// Configure autologin and restart the login manager.
    EnableAutologin,
    /// Remove autologin, end any open session, restart the login
    /// manager.
    Terminate,
    /// A contestant session opened under the configured autologin.
    SessionOpened,
    /// Delete and recreate the managed account (destructive).
    Reset,
}

/// Why a lifecycle operation was refused.
#[derive(Clone, Copy, Debug, PartialEq, Eq, Structural)]
pub enum SessionError {
    /// The operation is not meaningful in the current state; in
    /// particular the destructive reset only runs while locked,
    /// between a terminate and the next autologin.
    InvalidTransition,
}

/// The kiosk lifecycle: autologin readies a locked machine, an opened
/// session makes it active, terminate always locks it again, and the
/// destructive account reset is confined to the locked state.
pub fn session_transition(s: SessionState, op: SessionOp) -> (r: Result<
    SessionState,
    SessionError,
>)
    ensures
        op == SessionOp::EnableAutologin ==> r == Ok::<SessionState, SessionError>(
            SessionState::ReadyForContestant,
        ),
        op == SessionOp::Terminate ==> r == Ok::<SessionState, SessionError>(SessionState::Locked),
        op == SessionOp::SessionOpened && s == SessionState::ReadyForContestant ==> r == Ok::<
            SessionState,
            SessionError,
        >(SessionState::Active),
        op == SessionOp::SessionOpened && s != SessionState::ReadyForContestant ==> r == Err::<
            SessionState,
            SessionError,
        >(SessionError::InvalidTransition),
        op == SessionOp::Reset && s == SessionState::Locked ==> r == Ok::<
            SessionState,
            SessionError,
        >(SessionState::Locked),
        op == SessionOp::Reset && s != SessionState::Locked ==> r == Err::<
            SessionState,
            SessionError,
        >(SessionError::InvalidTransition),
{
    match op {
        SessionOp::EnableAutologin => Ok(SessionState::ReadyForContestant),
        SessionOp::Terminate => Ok(SessionState::Locked),
        SessionOp::SessionOpened => {
            if s == SessionState::ReadyForContestant {
                Ok(SessionState::Active)
            } else {
                Err(SessionError::InvalidTransition)
            }
        },
        SessionOp::Reset => {
            if s == SessionState::Locked {
                Ok(SessionState::Locked)
            } else {
                Err(SessionError::InvalidTransition)
            }
        },
    }
}

/// The directive that switches autologin on.
pub open spec fn autologin_enable_line() -> Seq<char> {
    "AutomaticLoginEnable=true"@
}

/// The directive that names the autologin account.
pub open spec fn autologin_user_line(user: Seq<char>) -> Seq<char> {
    "AutomaticLogin="@ + user
}

/// A configuration line survives the removal of autologin directives
/// unless, once trimmed, it is one of the two directives for the
/// managed account.
pub open spec fn keeps_line(line: Seq<char>, user: Seq<char>) -> bool {
    spec_trim(line) != autologin_enable_line() && spec_trim(line) != autologin_user_line(user)
}

/// The lines of a configuration file: newline-separated, a trailing
/// newline yielding no extra empty line.
pub open spec fn spec_lines(s: Seq<char>) -> Seq<Seq<char>> {
    let p = spec_split(s, '\n');
    if p.len() > 0 && p.last().len() == 0 {
        p.drop_last()
    } else {
        p
    }
}

/// The lines that survive the removal, in order.
pub open spec fn kept_lines(ls: Seq<Seq<char>>, user: Seq<char>) -> Seq<Seq<char>>
    decreases ls.len(),
{
    if ls.len() == 0 {
        Seq::empty()
    } else {
        kept_lines(ls.drop_last(), user) + if keeps_line(ls.last(), user) {
            seq![ls.last()]
        } else {
            Seq::empty()
        }
    }
}

/// The configuration after removing the autologin directives for the
/// managed account: the surviving lines, newline-separated, with a
/// trailing newline.
pub open spec fn stripped_config(contents: Seq<char>, user: Seq<char>) -> Seq<char> {
    spec_join(kept_lines(spec_lines(contents), user), '\n') + seq!['\n']
}

/// Removes the autologin directives for the managed account from the
/// login-manager configuration, leaving every other line in place.
pub fn strip_autologin_config(contents: &str, username: &str) -> (r: String)
    ensures
        r@ == stripped_config(contents@, username@),
{
    let ghost all = spec_lines(contents@);
    let mut pieces = split_char(contents, '\n');
    proof {
        crate::textutil::lemma_split_nonempty(contents@, '\n');
    }
    if pieces.len() > 0 && pieces[pieces.len() - 1].as_str().unicode_len() == 0 {
        pieces.pop();
        proof {
            assert(pieces@.map_values(|x: String| x@) =~= all);
        }
    } else {
        proof {
            assert(pieces@.map_values(|x: String| x@) =~= all);
        }
    }
    let mut target_user_line = String::from_str("AutomaticLogin=");
    target_user_line.append(username);
    let n = pieces.len();
    let mut kept: Vec<String> = Vec::new();
    let mut j: usize = 0;
    while j < n
        invariant
            n == pieces@.len(),
            j <= n,
            all == pieces@.map_values(|x: String| x@),
            target_user_line@ == autologin_user_line(username@),
            kept@.map_values(|x: String| x@) =~= kept_lines(all.take(j as int), username@),
        decreases n - j,
    {
        proof {
            assert(all[j as int] == pieces@[j as int]@);
            assert(all.take(j + 1int).drop_last() =~= all.take(j as int));
            assert(all.take(j + 1int).last() == all[j as int]);
        }
        let trimmed = trim_str(pieces[j].as_str());
        let drop_enable = str_eq(trimmed, "AutomaticLoginEnable=true");
        let drop_user = str_eq(trimmed, target_user_line.as_str());
        if !drop_enable && !drop_user {
            let ghost prev = kept@;
            kept.push(String::from_str(pieces[j].as_str()));
            proof {
                assert(kept@.map_values(|x: String| x@) =~= prev.map_values(
                    |x: String| x@,
                ).push(all[j as int]));
            }
        }
        j += 1;
    }
    proof {
        assert(all.take(n as int) =~= all);
    }
    let mut out = join_newlines(&kept);
    out.append("\n");
    proof {
        reveal_strlit("\n");
        assert(out@ =~= stripped_config(contents@, username@));
    }
    out
}

/// The text appended to the login-manager configuration to enable
/// autologin for the managed account.
pub open spec fn rendered_autologin(user: Seq<char>) -> Seq<char> {
    "[daemon]\nAutomaticLoginEnable=true\nAutomaticLogin="@ + user + "\n"@
}

/// Renders the autologin directives for the managed account.
pub fn autologin_directives(username: &str) -> (r: String)
    ensures
        r@ == rendered_autologin(username@),
{
    let mut out = String::from_str("[daemon]\nAutomaticLoginEnable=true\nAutomaticLogin=");
    out.append(username);
    out.append("\n");
    out
}

/// One privileged OS command: a program and its arguments.
pub struct OsCommand {
    pub program: String,
    pub args: Vec<String>,
}

/// Abstract view of an [`OsCommand`].
pub struct OsCommandV {
    pub program: Seq<char>,
    pub args: Seq<Seq<char>>,
}

impl View for OsCommand {
    type V = OsCommandV;

    open spec fn view(&self) -> OsCommandV {
        OsCommandV { program: self.program@, args: self.args@.map_values(|a: String| a@) }
    }
}

/// The command sequence of the `Terminate` transition: end the managed
/// account's sessions, then restart the login manager. (The directive
/// removal from the configuration file precedes these.)
pub open spec fn terminate_plan(user: Seq<char>) -> Seq<OsCommandV> {
    seq![
        OsCommandV { program: "loginctl"@, args: seq!["terminate-user"@, user] },
        OsCommandV { program: "systemctl"@, args: seq!["restart"@, "gdm"@] },
    ]
}

/// The command sequence of the `EnableAutologin` transition: restart
/// the login manager. (The directive append to the configuration file
/// precedes it.)
pub open spec fn enable_autologin_plan() -> Seq<OsCommandV> {
    seq![OsCommandV { program: "systemctl"@, args: seq!["restart"@, "gdm"@] }]
}

/// The shell line that sets the recreated account's password.
pub open spec fn chpasswd_line(user: Seq<char>, password: Seq<char>) -> Seq<char> {
    "echo '"@ + user + ":"@ + password + "' | sudo chpasswd"@
}

/// The command sequence of the destructive `Reset` transition: delete
/// the managed account with its home directory, recreate it, and
/// reapply the fixed password.
pub open spec fn reset_plan(user: Seq<char>, password: Seq<char>) -> Seq<OsCommandV> {
    seq![
        OsCommandV { program: "userdel"@, args: seq!["-r"@, user] },
        OsCommandV { program: "useradd"@, args: seq!["-m"@, user] },
        OsCommandV { program: "sh"@, args: seq!["-C"@, chpasswd_line(user, password)] },
    ]
}

fn make_command_2(program: &str, a0: &str, a1: &str) -> (r: OsCommand)
    ensures
        r@.program == program@,
        r@.args =~= seq![a0@, a1@],
{
    let mut args: Vec<String> = Vec::new();
    args.push(String::from_str(a0));
    args.push(String::from_str(a1));
    proof {
        assert(args@.map_values(|a: String| a@) =~= seq![a0@, a1@]);
    }
    OsCommand { program: String::from_str(program), args }
}

/// Builds the `Terminate` command sequence for the managed account.
pub fn terminate_commands(username: &str) -> (r: Vec<OsCommand>)
    ensures
        r@.map_values(|c: OsCommand| c@) =~= terminate_plan(username@),
{
    let mut cmds: Vec<OsCommand> = Vec::new();
    cmds.push(make_command_2("loginctl", "terminate-user", username));
    cmds.push(make_command_2("systemctl", "restart", "gdm"));
    proof {
        assert(cmds@.map_values(|c: OsCommand| c@)[0].args =~= terminate_plan(username@)[0].args);
        assert(cmds@.map_values(|c: OsCommand| c@)[1].args =~= terminate_plan(username@)[1].args);
        assert(cmds@.map_values(|c: OsCommand| c@) =~= terminate_plan(username@));
    }
    cmds
}

/// Builds the `EnableAutologin` command sequence.
pub fn enable_autologin_commands() -> (r: Vec<OsCommand>)
    ensures
        r@.map_values(|c: OsCommand| c@) =~= enable_autologin_plan(),
{
    let mut cmds: Vec<OsCommand> = Vec::new();
    cmds.push(make_command_2("systemctl", "restart", "gdm"));
    proof {
        assert(cmds@.map_values(|c: OsCommand| c@)[0].args =~= enable_autologin_plan()[0].args);
        assert(cmds@.map_values(|c: OsCommand| c@) =~= enable_autologin_plan());
    }
    cmds
}

/// Builds the destructive `Reset` command sequence for the managed
/// account.
pub fn reset_user_commands(username: &str, password: &str) -> (r: Vec<OsCommand>)
    ensures
        r@.map_values(|c: OsCommand| c@) =~= reset_plan(username@, password@),
{
    let mut cmds: Vec<OsCommand> = Vec::new();
    cmds.push(make_command_2("userdel", "-r", username));
    cmds.push(make_command_2("useradd", "-m", username));
    let mut line = String::from_str("echo '");
    line.append(username);
    line.append(":");
    line.append(password);
    line.append("' | sudo chpasswd");
    proof {
        assert(line@ =~= chpasswd_line(username@, password@));
    }
    cmds.push(make_command_2("sh", "-C", line.as_str()));
    proof {
        let plan = reset_plan(username@, password@);
        assert(cmds@.map_values(|c: OsCommand| c@)[0].args =~= plan[0].args);
        assert(cmds@.map_values(|c: OsCommand| c@)[1].args =~= plan[1].args);
        assert(cmds@.map_values(|c: OsCommand| c@)[2].args =~= plan[2].args);
        assert(cmds@.map_values(|c: OsCommand| c@) =~= plan);
    }
    cmds
}

/// The step a command sequence aborted at: the first failed result, if
/// any step failed.
pub fn first_failed_step(results: &Vec<bool>) -> (r: Option<usize>)
    ensures
        match r {
            Some(i) => i < results@.len() && !results@[i as int] && forall|k: int|
                0 <= k < i ==> results@[k],
            None => forall|k: int| 0 <= k < results@.len() ==> results@[k],
        },
{
    let n = results.len();
    let mut j: usize = 0;
    while j < n
        invariant
            n == results@.len(),
            j <= n,
            forall|k: int| 0 <= k < j ==> results@[k],
        decreases n - j,
    {
        if !results[j] {
            return Some(j);
        }
        j += 1;
    }
    None
}

} // verus!
