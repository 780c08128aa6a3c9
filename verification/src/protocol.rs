//! The text of the control channel: the lines a server sends, and how a
//! client tells an error line from the others.

use vstd::prelude::*;
use crate::command::chars_of;
use crate::error::SessionError;
use crate::session::Reply;

verus! {

/// What every error line begins with.
pub open spec fn error_prefix() -> Seq<char> {
    "ERR "@
}

/// Whether `line` is an error line: it begins with [`error_prefix`].
pub open spec fn is_error_line(line: Seq<char>) -> bool {
    error_prefix().is_prefix_of(line)
}

/// The reason that an error line gives for `error`.
pub open spec fn reason(error: SessionError) -> Seq<char> {
    match error {
        SessionError::InvalidCommand => "Некорректная команда"@,
        SessionError::InvalidPort => "Некорректный порт"@,
        SessionError::PortInUse => "Порт уже занят"@,
        SessionError::PingTimeout(_) => "Ошибка Ping/Pong"@,
        SessionError::Transport(how) => "Неизвестная ошибка "@ + how@,
    }
}

/// The line that says `reply`, without its line ending.
pub open spec fn line_of(reply: Reply) -> Seq<char> {
    match reply {
        Reply::Greeting => "Соединение установлено"@,
        Reply::Farewell => "Соединение закрыто"@,
        Reply::Error(error) => error_prefix() + reason(error),
    }
}

impl SessionError {
    /// The reason to give to the peer: see [`reason`].
    pub fn message(&self) -> (text: String)
        ensures
            text@ == reason(*self),
    {
        match self {
            SessionError::InvalidCommand => "Некорректная команда".to_owned(),
            SessionError::InvalidPort => "Некорректный порт".to_owned(),
            SessionError::PortInUse => "Порт уже занят".to_owned(),
            SessionError::PingTimeout(_) => "Ошибка Ping/Pong".to_owned(),
            SessionError::Transport(how) => {
                let mut text = "Неизвестная ошибка ".to_owned();
                text.append(how.as_str());
                text
            },
        }
    }
}

impl Reply {
    /// The line to send, without its line ending: see [`line_of`].
    pub fn line(&self) -> (text: String)
        ensures
            text@ == line_of(*self),
    {
        match self {
            Reply::Greeting => "Соединение установлено".to_owned(),
            Reply::Farewell => "Соединение закрыто".to_owned(),
            Reply::Error(error) => {
                let mut text = "ERR ".to_owned();
                let why = error.message();
                text.append(why.as_str());
                text
            },
        }
    }
}

/// `text` as one line of the channel: with a line feed after it.
pub fn frame(text: &str) -> (line: String)
    ensures
        line@ == text@.push('\n'),
{
    let mut line = text.to_owned();
    line.append("\n");
    proof {
        reveal_strlit("\n");
        assert("\n"@ =~= seq!['\n']);
        assert(line@ =~= text@.push('\n'));
    }
    line
}

/// The reason that `line` gives, if it is an error line: what follows
/// [`error_prefix`].
pub fn error_reason(line: &str) -> (why: Option<String>)
    ensures
        is_error_line(line@) ==> (why matches Some(text) && text@ == line@.skip(4)),
        !is_error_line(line@) ==> why is None,
{
    proof {
        reveal_strlit("ERR ");
        assert("ERR "@ =~= seq!['E', 'R', 'R', ' ']);
    }
    let chars = chars_of(line);
    if chars.len() >= 4 && chars[0] == 'E' && chars[1] == 'R' && chars[2] == 'R' && chars[3]
        == ' ' {
        assert(line@.subrange(0, 4) =~= error_prefix());
        assert(line@.subrange(4, line@.len() as int) =~= line@.skip(4));
        Some(line.substring_char(4, chars.len()).to_owned())
    } else {
        proof {
            if is_error_line(line@) {
                assert(line@.subrange(0, 4) == error_prefix());
                assert(line@.subrange(0, 4)[0] == 'E');
                assert(line@.subrange(0, 4)[1] == 'R');
                assert(line@.subrange(0, 4)[2] == 'R');
                assert(line@.subrange(0, 4)[3] == ' ');
            }
        }
        None
    }
}

/// A client can tell the lines apart: the line of a reply is an error line
/// exactly when the reply reports an error, and then what follows the
/// prefix is the reason.
pub proof fn law_error_lines_are_told_apart(reply: Reply)
    ensures
        is_error_line(line_of(reply)) <==> reply is Error,
        reply matches Reply::Error(error) ==> line_of(reply).skip(4) == reason(error),
{
    reveal_strlit("ERR ");
    reveal_strlit("Соединение установлено");
    reveal_strlit("Соединение закрыто");
    match reply {
        Reply::Greeting => {
            assert(line_of(reply)[0] != 'E');
            if is_error_line(line_of(reply)) {
                assert(line_of(reply).subrange(0, 4)[0] == error_prefix()[0]);
            }
        },
        Reply::Farewell => {
            assert(line_of(reply)[0] != 'E');
            if is_error_line(line_of(reply)) {
                assert(line_of(reply).subrange(0, 4)[0] == error_prefix()[0]);
            }
        },
        Reply::Error(error) => {
            assert(line_of(reply).subrange(0, 4) =~= error_prefix());
            assert(line_of(reply).skip(4) =~= reason(error));
        },
    }
}

} // verus!
