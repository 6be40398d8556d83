//! The command line that opens a login session on a server.

use vstd::prelude::*;
use vstd::string::StringExecFns;
use crate::error::{Error, ErrorView, Violation, ViolationView};
use crate::model::{Server, ServerView};

verus! {

/// The character of a decimal digit.
pub open spec fn digit_char(d: int) -> char
    recommends
        0 <= d < 10,
{
    if d == 0 {
        '0'
    } else if d == 1 {
        '1'
    } else if d == 2 {
        '2'
    } else if d == 3 {
        '3'
    } else if d == 4 {
        '4'
    } else if d == 5 {
        '5'
    } else if d == 6 {
        '6'
    } else if d == 7 {
        '7'
    } else if d == 8 {
        '8'
    } else {
        '9'
    }
}

/// A number in decimal, without sign or leading zeros.
pub open spec fn decimal(n: nat) -> Seq<char>
    decreases n,
{
    if n < 10 {
        seq![digit_char(n as int)]
    } else {
        decimal(n / 10).push(digit_char((n % 10) as int))
    }
}

/// The command line for `server`, by its authentication tag; `None` for a
/// tag that is neither `password` nor `key`.
pub open spec fn command_line(server: ServerView) -> Option<Seq<char>> {
    let target = "ssh "@ + server.username + "@"@ + server.host + " -p "@ + decimal(
        server.port as nat,
    );
    if server.auth_type == "password"@ {
        Some(target + " -o PreferredAuthentications=password"@)
    } else if server.auth_type == "key"@ {
        Some(target + " -i "@ + server.auth_info)
    } else {
        None
    }
}

/// What the terminal application is told in order to run `command`.
pub open spec fn terminal_request(command: Seq<char>) -> Seq<char> {
    "tell application \"Terminal\" to do script \""@ + command + "\""@
}

/// One decimal digit as text.
fn digit_text(d: u16) -> (text: &'static str)
    requires
        d < 10,
    ensures
        text@ == seq![digit_char(d as int)],
{
    proof {
        reveal_strlit("0");
        reveal_strlit("1");
        reveal_strlit("2");
        reveal_strlit("3");
        reveal_strlit("4");
        reveal_strlit("5");
        reveal_strlit("6");
        reveal_strlit("7");
        reveal_strlit("8");
        reveal_strlit("9");
    }
    let text = if d == 0 {
        "0"
    } else if d == 1 {
        "1"
    } else if d == 2 {
        "2"
    } else if d == 3 {
        "3"
    } else if d == 4 {
        "4"
    } else if d == 5 {
        "5"
    } else if d == 6 {
        "6"
    } else if d == 7 {
        "7"
    } else if d == 8 {
        "8"
    } else {
        "9"
    };
    assert(text@ =~= seq![digit_char(d as int)]);
    text
}

/// A port number in decimal.
pub fn port_text(port: u16) -> (text: String)
    ensures
        text@ == decimal(port as nat),
    decreases port,
{
    if port < 10 {
        digit_text(port).to_owned()
    } else {
        let mut text = port_text(port / 10);
        text.append(digit_text(port % 10));
        assert(text@ =~= decimal(port as nat));
        text
    }
}

/// Builds the command line that logs in on `server`: user, host and port,
/// then either the request to be asked for a password or the key file.
pub fn login_command(server: &Server) -> (outcome: Result<String, Error>)
    ensures
        match command_line(server@) {
            Some(line) => outcome matches Ok(command) && command@ == line,
            None => outcome matches Err(e) && e@ == ErrorView::Validation(
                ViolationView::InvalidAuthType,
            ),
        },
{
    let mut command = "ssh ".to_owned();
    command.append(server.username.as_str());
    command.append("@");
    command.append(server.host.as_str());
    command.append(" -p ");
    command.append(port_text(server.port).as_str());
    if server.auth_type == "password".to_owned() {
        command.append(" -o PreferredAuthentications=password");
        Ok(command)
    } else if server.auth_type == "key".to_owned() {
        command.append(" -i ");
        command.append(server.auth_info.as_str());
        Ok(command)
    } else {
        Err(Error::Validation(Violation::InvalidAuthType))
    }
}

/// Wraps `command` in the request that has the terminal application run it.
pub fn terminal_script(command: &str) -> (script: String)
    ensures
        script@ == terminal_request(command@),
{
    let mut script = "tell application \"Terminal\" to do script \"".to_owned();
    script.append(command);
    script.append("\"");
    script
}

} // verus!
