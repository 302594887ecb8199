//! The access log: one line per request, in the combined log format.

use crate::text::{decimal, push_decimal, push_str_chars, str_chars, str_eq, string_from_chars};
use vstd::prelude::*;

verus! {

/// Target under which access lines are logged.
pub const ACCESS_LOG_TARGET: &'static str = "access_log";

/// The text of an optional header, or a dash.
pub open spec fn optional_text(opt: Option<String>) -> Seq<char> {
    match opt {
        Some(s) => s@,
        None => "-"@,
    }
}

/// The text of an optional header, or a dash.
pub fn optional(opt: Option<String>) -> (r: String)
    ensures
        r@ == optional_text(opt),
{
    match opt {
        Some(s) => s,
        None => "-".to_string(),
    }
}

/// One line of the access log: client address, time, request line, status,
/// size, referer and user agent.
pub open spec fn access_line(
    status: u16,
    method: Seq<char>,
    bytes: Seq<char>,
    version: Seq<char>,
    uri: Seq<char>,
    addr: Seq<char>,
    user_agent: Option<String>,
    referer: Option<String>,
    now: Seq<char>,
) -> Seq<char> {
    addr + " - - ["@ + now + "] \""@ + method + " "@ + uri + " "@ + version + "\" "@ + decimal(
        status as nat,
    ) + " "@ + bytes + " \""@ + optional_text(referer) + "\" \""@ + optional_text(user_agent)
        + "\""@
}

/// Formats the access line of one request. `version` is the protocol version
/// as it is shown, `now` the local time as `%d/%b/%Y:%H:%M:%S %z`.
pub fn log_access(
    status: u16,
    method: &str,
    bytes: &str,
    version: &str,
    uri: &str,
    addr: &str,
    user_agent: Option<String>,
    referer: Option<String>,
    now: &str,
) -> (r: String)
    ensures
        r@ == access_line(
            status,
            method@,
            bytes@,
            version@,
            uri@,
            addr@,
            user_agent,
            referer,
            now@,
        ),
{
    let mut line = str_chars(addr);
    push_str_chars(&mut line, " - - [");
    push_str_chars(&mut line, now);
    push_str_chars(&mut line, "] \"");
    push_str_chars(&mut line, method);
    push_str_chars(&mut line, " ");
    push_str_chars(&mut line, uri);
    push_str_chars(&mut line, " ");
    push_str_chars(&mut line, version);
    push_str_chars(&mut line, "\" ");
    push_decimal(&mut line, status as u128);
    push_str_chars(&mut line, " ");
    push_str_chars(&mut line, bytes);
    push_str_chars(&mut line, " \"");
    let referer_text = optional(referer);
    push_str_chars(&mut line, referer_text.as_str());
    push_str_chars(&mut line, "\" \"");
    let agent_text = optional(user_agent);
    push_str_chars(&mut line, agent_text.as_str());
    push_str_chars(&mut line, "\"");
    string_from_chars(&line)
}

/// Formatter of the access log file: it writes the events logged under
/// [`ACCESS_LOG_TARGET`] and nothing else.
#[derive(Debug, Clone, Copy, PartialEq, Eq, Structural)]
pub struct AccessLogFormat;

impl AccessLogFormat {
    /// What is written for an event: its message and a line break when it is
    /// an access line.
    pub open spec fn formatted(target: Seq<char>, message: Seq<char>) -> Option<Seq<char>> {
        if target == ACCESS_LOG_TARGET@ {
            Some(message.push('\n'))
        } else {
            None
        }
    }

    /// Formats one event.
    pub fn format_event(&self, target: &str, message: &str) -> (r: Option<String>)
        ensures
            crate::document_scraper::opt_view(r) == Self::formatted(target@, message@),
    {
        if str_eq(target, ACCESS_LOG_TARGET) {
            let mut line = str_chars(message);
            line.push('\n');
            Some(string_from_chars(&line))
        } else {
            None
        }
    }
}

} // verus!
