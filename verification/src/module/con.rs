//! `/con <server>`: reconnects the client to one of the game's servers by a
//! short name, such as `eue` for EUEast.

use vstd::prelude::*;
use super::{Module, ModuleInstance, Notice, NoticeColor};
use vstd::string::StringExecFns;
use crate::text::{second_field, split_second, starts_with, str_eq};

verus! {

#[derive(Debug, Clone)]
pub struct Con {}

#[derive(Debug, Clone)]
pub struct ConInst {}

impl Module for Con {
    type Instance = ConInst;

    fn new() -> Self {
        Con {}
    }

    fn instance(&self) -> ConInst {
        ConInst {}
    }
}

impl ModuleInstance for ConInst {}

/// The address of the server with a short name.
pub open spec fn server_address(name: Seq<char>) -> Option<Seq<char>> {
    if name == "eue"@ {
        Some("18.184.218.174"@)
    } else if name == "eusw"@ {
        Some("35.180.67.120"@)
    } else if name == "use2"@ {
        Some("54.209.152.223"@)
    } else if name == "eun"@ {
        Some("18.159.133.120"@)
    } else if name == "use"@ {
        Some("54.234.226.24"@)
    } else if name == "usw4"@ {
        Some("54.235.235.140"@)
    } else if name == "euw2"@ {
        Some("52.16.86.215"@)
    } else if name == "a"@ {
        Some("3.0.147.127"@)
    } else if name == "uss3"@ {
        Some("52.207.206.31"@)
    } else if name == "euw"@ {
        Some("15.237.60.223"@)
    } else if name == "usw"@ {
        Some("54.86.47.176"@)
    } else if name == "usmw2"@ {
        Some("3.140.254.133"@)
    } else if name == "usmw"@ {
        Some("18.221.120.59"@)
    } else if name == "uss"@ {
        Some("3.82.126.16"@)
    } else if name == "usw3"@ {
        Some("18.144.30.153"@)
    } else if name == "ussw"@ {
        Some("54.153.13.68"@)
    } else if name == "usnw"@ {
        Some("34.238.176.119"@)
    } else if name == "aus"@ {
        Some("54.79.72.84"@)
    } else {
        None
    }
}

/// Law: `/con` knows these eighteen short names and no other, and no two of
/// them lead to the same address; so a name never reconnects to another
/// server's address.
pub proof fn law_server_addresses(n1: Seq<char>, n2: Seq<char>)
    ensures
        server_address(n1) is Some <==> (n1 == "eue"@ || n1 == "eusw"@ || n1 == "use2"@ || n1 == "eun"@ || n1 == "use"@
            || n1 == "usw4"@ || n1 == "euw2"@ || n1 == "a"@ || n1 == "uss3"@ || n1 == "euw"@ || n1 == "usw"@
            || n1 == "usmw2"@ || n1 == "usmw"@ || n1 == "uss"@ || n1 == "usw3"@ || n1 == "ussw"@ || n1 == "usnw"@
            || n1 == "aus"@),
        server_address(n1) is Some && server_address(n1) == server_address(n2) ==> n1 == n2,
{
    reveal_strlit("18.184.218.174");
    reveal_strlit("35.180.67.120");
    reveal_strlit("54.209.152.223");
    reveal_strlit("18.159.133.120");
    reveal_strlit("54.234.226.24");
    reveal_strlit("54.235.235.140");
    reveal_strlit("52.16.86.215");
    reveal_strlit("3.0.147.127");
    reveal_strlit("52.207.206.31");
    reveal_strlit("15.237.60.223");
    reveal_strlit("54.86.47.176");
    reveal_strlit("3.140.254.133");
    reveal_strlit("18.221.120.59");
    reveal_strlit("3.82.126.16");
    reveal_strlit("18.144.30.153");
    reveal_strlit("54.153.13.68");
    reveal_strlit("34.238.176.119");
    reveal_strlit("54.79.72.84");
    if server_address(n1) is Some && server_address(n1) == server_address(n2) {
        let a = server_address(n1).unwrap();
        let b = server_address(n2).unwrap();
        assert(a.len() == b.len() && a[0] == b[0] && a[1] == b[1] && a[2] == b[2] && a[3] == b[3] && a[4] == b[4]
            && a[5] == b[5] && a[6] == b[6] && a[7] == b[7]);
    }
}

/// The address of the server with a short name.
pub fn find_server(name: &str) -> (r: Option<&'static str>)
    ensures
        match r {
            Some(a) => server_address(name@) == Some(a@),
            None => server_address(name@) is None,
        },
{
    if str_eq(name, "eue") {
        Some("18.184.218.174")
    } else if str_eq(name, "eusw") {
        Some("35.180.67.120")
    } else if str_eq(name, "use2") {
        Some("54.209.152.223")
    } else if str_eq(name, "eun") {
        Some("18.159.133.120")
    } else if str_eq(name, "use") {
        Some("54.234.226.24")
    } else if str_eq(name, "usw4") {
        Some("54.235.235.140")
    } else if str_eq(name, "euw2") {
        Some("52.16.86.215")
    } else if str_eq(name, "a") {
        Some("3.0.147.127")
    } else if str_eq(name, "uss3") {
        Some("52.207.206.31")
    } else if str_eq(name, "euw") {
        Some("15.237.60.223")
    } else if str_eq(name, "usw") {
        Some("54.86.47.176")
    } else if str_eq(name, "usmw2") {
        Some("3.140.254.133")
    } else if str_eq(name, "usmw") {
        Some("18.221.120.59")
    } else if str_eq(name, "uss") {
        Some("3.82.126.16")
    } else if str_eq(name, "usw3") {
        Some("18.144.30.153")
    } else if str_eq(name, "ussw") {
        Some("54.153.13.68")
    } else if str_eq(name, "usnw") {
        Some("34.238.176.119")
    } else if str_eq(name, "aus") {
        Some("54.79.72.84")
    } else {
        None
    }
}

/// The lower-case form of a string, as `str::to_lowercase` gives it.
pub uninterp spec fn lowercase(s: Seq<char>) -> Seq<char>;

/// Calls `str::to_lowercase`: the string with each character in lower case,
/// by Unicode's rules.
#[verifier::external_body]
pub(crate) fn to_lowercase(s: &str) -> (r: String)
    ensures
        r@ == lowercase(s@),
{
    s.to_lowercase()
}

/// What the command asks for.
#[derive(Debug, Clone)]
pub enum ConAction {
    /// The line is not this command: it goes on to the server.
    NotCommand,
    /// No server was named.
    MissingServer,
    /// Reconnect to this address.
    Reconnect(&'static str),
    /// The named server is unknown.
    InvalidServer(String),
}

/// What a chat line asks of this module.
pub open spec fn con_action(text: Seq<char>, r: ConAction) -> bool {
    if !"/con"@.is_prefix_of(text) {
        r is NotCommand
    } else {
        match second_field(text, ' ') {
            None => r is MissingServer,
            Some(srv) => match server_address(lowercase(srv)) {
                Some(a) => r matches ConAction::Reconnect(x) && x@ == a,
                None => r matches ConAction::InvalidServer(x) && x@ == srv,
            },
        }
    }
}

/// Reads a chat line: the command, the server it names and its address.
pub fn con_command(text: &str) -> (r: ConAction)
    ensures
        con_action(text@, r),
{
    if !starts_with(text, "/con") {
        return ConAction::NotCommand;
    }
    match split_second(text, ' ') {
        None => ConAction::MissingServer,
        Some(srv) => {
            let lower = to_lowercase(srv.as_str());
            match find_server(lower.as_str()) {
                Some(a) => ConAction::Reconnect(a),
                None => ConAction::InvalidServer(srv),
            }
        },
    }
}


/// The text that `<str as Debug>::fmt` writes for a string: the string in
/// double quotes, with escapes.
pub uninterp spec fn debug_str(s: Seq<char>) -> Seq<char>;

/// Calls `<str as Debug>::fmt` through `format!`: the string quoted as
/// `{:?}` writes it.
#[verifier::external_body]
fn debug_quoted(s: &str) -> (r: String)
    ensures
        r@ == debug_str(s@),
{
    format!("{s:?}")
}

/// The packet that sends the client to another server.
#[derive(Debug, Clone)]
pub struct ReconnectRequest {
    pub hostname: String,
    pub address: String,
    pub port: u16,
    pub game_id: u32,
    pub key_time: u32,
    pub key: Vec<u8>,
}

/// What the module answers a chat line with.
#[derive(Debug, Clone)]
pub enum ConAnswer {
    /// The line goes on to the server.
    Forward,
    /// The line is blocked, and the player is told this.
    Notify(Notice),
    /// The line is blocked, and the client is sent to another server.
    Reconnect(ReconnectRequest),
}

/// The answer to a chat line: a reconnect to the named server's address on
/// port 2050, or a notification of what is wrong with the command.
pub open spec fn con_answer_of(text: Seq<char>, r: ConAnswer) -> bool {
    if !"/con"@.is_prefix_of(text) {
        r is Forward
    } else {
        match second_field(text, ' ') {
            None => r matches ConAnswer::Notify(n) && n.text@ == "Specify a server. Example: eue"@
                && n.color == NoticeColor::Blue,
            Some(srv) => match server_address(lowercase(srv)) {
                Some(a) => r matches ConAnswer::Reconnect(q) && q.hostname@ == "have fun :)"@ && q.address@ == a
                    && q.port == 2050 && q.game_id == 0xfffffffe && q.key_time == 0xffffffff && q.key@.len() == 0,
                None => r matches ConAnswer::Notify(n) && n.text@ == "Server "@ + debug_str(srv) + " is invalid."@
                    && n.color == NoticeColor::Red,
            },
        }
    }
}

/// Answers a chat line.
pub fn con_answer(text: &str) -> (r: ConAnswer)
    ensures
        con_answer_of(text@, r),
{
    match con_command(text) {
        ConAction::NotCommand => ConAnswer::Forward,
        ConAction::MissingServer => ConAnswer::Notify(Notice {
            text: String::from_str("Specify a server. Example: eue"),
            color: NoticeColor::Blue,
        }),
        ConAction::Reconnect(a) => ConAnswer::Reconnect(ReconnectRequest {
            hostname: String::from_str("have fun :)"),
            address: String::from_str(a),
            port: 2050,
            game_id: 0xfffffffe,
            key_time: 0xffffffff,
            key: Vec::new(),
        }),
        ConAction::InvalidServer(srv) => {
            let mut t = String::from_str("Server ");
            let q = debug_quoted(srv.as_str());
            t.append(q.as_str());
            t.append(" is invalid.");
            ConAnswer::Notify(Notice { text: t, color: NoticeColor::Red })
        },
    }
}
} // verus!
