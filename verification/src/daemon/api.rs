//! The local API: requests, the commands they stand for, and responses.
//!
//! A request and a response are one line each, which holds a JSON object.

use crate::daemon::commands;
use crate::daemon::error::DaemonError;
use crate::daemon::json;
use crate::daemon::node::{Daemon, Outgoing};
use crate::identity::RnsAddress;
use crate::span::TimeSpan;
use crate::text;
use crate::wire;
use vstd::prelude::*;
use vstd::utf8;

verus! {

/// The text fields of a request; those that are missing, or no text, are `None`.
#[derive(Debug, Clone, PartialEq, Eq)]
pub struct ApiRequest {
    pub cmd: Option<String>,
    pub dest: Option<String>,
    pub data: Option<String>,
    pub name: Option<String>,
    pub key: Option<String>,
    pub endpoint: Option<String>,
}

/// A command to the daemon.
#[derive(Debug, Clone, PartialEq, Eq)]
pub enum ApiCommand {
    /// Send raw bytes to an address.
    Express { dest: [u8; 16], data: Vec<u8> },
    /// Publish content.
    Publish { name: String, data: Vec<u8> },
    /// Tell the status.
    Status,
    /// Begin a link.
    Connect { dest: [u8; 16] },
    /// Send data on a link.
    SendOverLink { dest: [u8; 16], data: Vec<u8> },
    /// Send a resource on a link.
    SendResource { dest: [u8; 16], data: Vec<u8> },
    /// Make the key and the endpoint of a peer known.
    SeedPeer { dest: [u8; 16], key_hex: String, udp_endpoint: String },
}

/// The status of a daemon.
#[derive(Debug, Clone, PartialEq, Eq)]
pub struct DaemonStatus {
    pub address: String,
    pub link_count: usize,
    pub peer_count: usize,
    pub medium_count: usize,
}

/// A response: a result, or an error.
#[derive(Debug, Clone, PartialEq, Eq)]
pub enum ApiResponse {
    /// The word for what was done.
    Done(&'static str),
    Status(DaemonStatus),
    Error(String),
}

/// The text fields of a request over character sequences.
pub struct RequestView {
    pub cmd: Option<Seq<char>>,
    pub dest: Option<Seq<char>>,
    pub data: Option<Seq<char>>,
    pub name: Option<Seq<char>>,
    pub key: Option<Seq<char>>,
    pub endpoint: Option<Seq<char>>,
}

impl View for ApiRequest {
    type V = RequestView;

    open spec fn view(&self) -> RequestView {
        RequestView {
            cmd: text::text_view(self.cmd),
            dest: text::text_view(self.dest),
            data: text::text_view(self.data),
            name: text::text_view(self.name),
            key: text::text_view(self.key),
            endpoint: text::text_view(self.endpoint),
        }
    }
}

/// A command over byte sequences.
pub enum CommandView {
    Express { dest: Seq<u8>, data: Seq<u8> },
    Publish { name: Seq<char>, data: Seq<u8> },
    Status,
    Connect { dest: Seq<u8> },
    SendOverLink { dest: Seq<u8>, data: Seq<u8> },
    SendResource { dest: Seq<u8>, data: Seq<u8> },
    SeedPeer { dest: Seq<u8>, key_hex: Seq<char>, udp_endpoint: Seq<char> },
}

impl View for ApiCommand {
    type V = CommandView;

    open spec fn view(&self) -> CommandView {
        match *self {
            ApiCommand::Express { dest, data } => CommandView::Express {
                dest: dest@,
                data: data@,
            },
            ApiCommand::Publish { name, data } => CommandView::Publish {
                name: name@,
                data: data@,
            },
            ApiCommand::Status => CommandView::Status,
            ApiCommand::Connect { dest } => CommandView::Connect { dest: dest@ },
            ApiCommand::SendOverLink { dest, data } => CommandView::SendOverLink {
                dest: dest@,
                data: data@,
            },
            ApiCommand::SendResource { dest, data } => CommandView::SendResource {
                dest: dest@,
                data: data@,
            },
            ApiCommand::SeedPeer { dest, key_hex, udp_endpoint } => CommandView::SeedPeer {
                dest: dest@,
                key_hex: key_hex@,
                udp_endpoint: udp_endpoint@,
            },
        }
    }
}

/// A field that has to be there.
pub open spec fn required(field: Option<Seq<char>>, missing: Seq<char>) -> Result<
    Seq<char>,
    Seq<char>,
> {
    match field {
        Some(s) => Ok(s),
        None => Err(missing),
    }
}

/// A hexadecimal field.
pub open spec fn decoded(field: Seq<char>, invalid: Seq<char>) -> Result<Seq<u8>, Seq<char>> {
    match text::hex_bytes(utf8::encode_utf8(field)) {
        Some(b) => Ok(b),
        None => Err(invalid + text::hex_complaint(field)),
    }
}

/// A destination: 16 bytes in hexadecimal.
pub open spec fn decoded_dest(field: Seq<char>) -> Result<Seq<u8>, Seq<char>> {
    match decoded(field, "Invalid dest hex: "@) {
        Ok(b) => if b.len() == 16 {
            Ok(b)
        } else {
            Err("dest must be 16 bytes (32 hex chars)"@)
        },
        Err(e) => Err(e),
    }
}

/// The destination and the data of a request. Missing fields are told first.
pub open spec fn dest_and_data(r: RequestView) -> Result<(Seq<u8>, Seq<u8>), Seq<char>> {
    match required(r.dest, "Missing 'dest' field"@) {
        Err(e) => Err(e),
        Ok(dest_hex) => match required(r.data, "Missing 'data' field"@) {
            Err(e) => Err(e),
            Ok(data_hex) => match decoded_dest(dest_hex) {
                Err(e) => Err(e),
                Ok(dest) => match decoded(data_hex, "Invalid data hex: "@) {
                    Err(e) => Err(e),
                    Ok(data) => Ok((dest, data)),
                },
            },
        },
    }
}

/// The command that a request stands for, or what is wrong with it.
pub open spec fn command_of(r: RequestView) -> Result<CommandView, Seq<char>> {
    match r.cmd {
        None => Err("Missing 'cmd' field"@),
        Some(cmd) => if cmd == "express"@ {
            match dest_and_data(r) {
                Ok((dest, data)) => Ok(CommandView::Express { dest, data }),
                Err(e) => Err(e),
            }
        } else if cmd == "publish"@ {
            match required(r.name, "Missing 'name' field"@) {
                Err(e) => Err(e),
                Ok(name) => match required(r.data, "Missing 'data' field"@) {
                    Err(e) => Err(e),
                    Ok(data_hex) => match decoded(data_hex, "Invalid data hex: "@) {
                        Err(e) => Err(e),
                        Ok(data) => Ok(CommandView::Publish { name, data }),
                    },
                },
            }
        } else if cmd == "status"@ {
            Ok(CommandView::Status)
        } else if cmd == "connect"@ {
            match required(r.dest, "Missing 'dest' field"@) {
                Err(e) => Err(e),
                Ok(dest_hex) => match decoded_dest(dest_hex) {
                    Err(e) => Err(e),
                    Ok(dest) => Ok(CommandView::Connect { dest }),
                },
            }
        } else if cmd == "send"@ {
            match dest_and_data(r) {
                Ok((dest, data)) => Ok(CommandView::SendOverLink { dest, data }),
                Err(e) => Err(e),
            }
        } else if cmd == "send_resource"@ {
            match dest_and_data(r) {
                Ok((dest, data)) => Ok(CommandView::SendResource { dest, data }),
                Err(e) => Err(e),
            }
        } else if cmd == "seed_peer"@ {
            match required(r.dest, "Missing 'dest' field"@) {
                Err(e) => Err(e),
                Ok(dest_hex) => match required(r.key, "Missing 'key' field"@) {
                    Err(e) => Err(e),
                    Ok(key_hex) => match required(r.endpoint, "Missing 'endpoint' field"@) {
                        Err(e) => Err(e),
                        Ok(udp_endpoint) => match decoded_dest(dest_hex) {
                            Err(e) => Err(e),
                            Ok(dest) => Ok(CommandView::SeedPeer { dest, key_hex, udp_endpoint }),
                        },
                    },
                },
            }
        } else {
            Err("Unknown command: "@ + cmd)
        },
    }
}

fn require(field: &Option<String>, missing: &str) -> (r: Result<String, String>)
    ensures
        (match r {
            Ok(s) => required(text::text_view(*field), missing@) == Ok::<Seq<char>, Seq<char>>(s@),
            Err(e) => required(text::text_view(*field), missing@) == Err::<Seq<char>, Seq<char>>(e@),
        }),
{
    match field {
        Some(s) => Ok(s.as_str().to_owned()),
        None => Err(missing.to_owned()),
    }
}

fn decode(field: &str, invalid: &str) -> (r: Result<Vec<u8>, String>)
    ensures
        (match r {
            Ok(b) => decoded(field@, invalid@) == Ok::<Seq<u8>, Seq<char>>(b@),
            Err(e) => decoded(field@, invalid@) == Err::<Seq<u8>, Seq<char>>(e@),
        }),
{
    match text::hex_decode(field) {
        Ok(b) => Ok(b),
        Err(e) => Err(text::join(invalid, e.as_str())),
    }
}

fn decode_dest(field: &str) -> (r: Result<[u8; 16], String>)
    ensures
        (match r {
            Ok(b) => decoded_dest(field@) == Ok::<Seq<u8>, Seq<char>>(b@),
            Err(e) => decoded_dest(field@) == Err::<Seq<u8>, Seq<char>>(e@),
        }),
{
    match decode(field, "Invalid dest hex: ") {
        Ok(b) => {
            if b.len() == 16 {
                let dest: [u8; 16] = wire::read_16(b.as_slice(), 0);
                assert(dest@ =~= b@);
                Ok(dest)
            } else {
                Err("dest must be 16 bytes (32 hex chars)".to_owned())
            }
        },
        Err(e) => Err(e),
    }
}

fn read_dest_and_data(r: &ApiRequest) -> (out: Result<([u8; 16], Vec<u8>), String>)
    ensures
        (match out {
            Ok((dest, data)) => dest_and_data(r@) == Ok::<(Seq<u8>, Seq<u8>), Seq<char>>(
                (dest@, data@),
            ),
            Err(e) => dest_and_data(r@) == Err::<(Seq<u8>, Seq<u8>), Seq<char>>(e@),
        }),
{
    let dest_hex: String = match require(&r.dest, "Missing 'dest' field") {
        Ok(s) => s,
        Err(e) => {
            return Err(e);
        },
    };
    let data_hex: String = match require(&r.data, "Missing 'data' field") {
        Ok(s) => s,
        Err(e) => {
            return Err(e);
        },
    };
    let dest: [u8; 16] = match decode_dest(dest_hex.as_str()) {
        Ok(d) => d,
        Err(e) => {
            return Err(e);
        },
    };
    match decode(data_hex.as_str(), "Invalid data hex: ") {
        Ok(data) => Ok((dest, data)),
        Err(e) => Err(e),
    }
}

/// Whether a parsed command is the one that a request stands for.
pub open spec fn parses(r: ApiRequest, out: Result<ApiCommand, String>) -> bool {
    match out {
        Ok(c) => command_of(r@) == Ok::<CommandView, Seq<char>>(c@),
        Err(e) => command_of(r@) == Err::<CommandView, Seq<char>>(e@),
    }
}

fn parse_publish(r: &ApiRequest) -> (out: Result<ApiCommand, String>)
    requires
        r.cmd matches Some(c) && c@ == "publish"@,
        "express"@ != "publish"@,
    ensures
        parses(*r, out),
{
    let name: String = match require(&r.name, "Missing 'name' field") {
        Ok(s) => s,
        Err(e) => {
            return Err(e);
        },
    };
    let data_hex: String = match require(&r.data, "Missing 'data' field") {
        Ok(s) => s,
        Err(e) => {
            return Err(e);
        },
    };
    match decode(data_hex.as_str(), "Invalid data hex: ") {
        Ok(data) => Ok(ApiCommand::Publish { name, data }),
        Err(e) => Err(e),
    }
}

/// Reads the command of a request.
pub fn parse_command(r: &ApiRequest) -> (out: Result<ApiCommand, String>)
    ensures
        parses(*r, out),
{
    let cmd: &String = match &r.cmd {
        Some(c) => c,
        None => {
            return Err("Missing 'cmd' field".to_owned());
        },
    };
    if *cmd == "express".to_owned() {
        return match read_dest_and_data(r) {
            Ok((dest, data)) => Ok(ApiCommand::Express { dest, data }),
            Err(e) => Err(e),
        };
    }
    if *cmd == "publish".to_owned() {
        return parse_publish(r);
    }
    if *cmd == "status".to_owned() {
        return Ok(ApiCommand::Status);
    }
    if *cmd == "connect".to_owned() {
        let dest_hex: String = match require(&r.dest, "Missing 'dest' field") {
            Ok(s) => s,
            Err(e) => {
                return Err(e);
            },
        };
        return match decode_dest(dest_hex.as_str()) {
            Ok(dest) => Ok(ApiCommand::Connect { dest }),
            Err(e) => Err(e),
        };
    }
    if *cmd == "send".to_owned() {
        return match read_dest_and_data(r) {
            Ok((dest, data)) => Ok(ApiCommand::SendOverLink { dest, data }),
            Err(e) => Err(e),
        };
    }
    if *cmd == "send_resource".to_owned() {
        return match read_dest_and_data(r) {
            Ok((dest, data)) => Ok(ApiCommand::SendResource { dest, data }),
            Err(e) => Err(e),
        };
    }
    if *cmd == "seed_peer".to_owned() {
        let dest_hex: String = match require(&r.dest, "Missing 'dest' field") {
            Ok(s) => s,
            Err(e) => {
                return Err(e);
            },
        };
        let key_hex: String = match require(&r.key, "Missing 'key' field") {
            Ok(s) => s,
            Err(e) => {
                return Err(e);
            },
        };
        let udp_endpoint: String = match require(&r.endpoint, "Missing 'endpoint' field") {
            Ok(s) => s,
            Err(e) => {
                return Err(e);
            },
        };
        return match decode_dest(dest_hex.as_str()) {
            Ok(dest) => Ok(ApiCommand::SeedPeer { dest, key_hex, udp_endpoint }),
            Err(e) => Err(e),
        };
    }
    Err(text::join("Unknown command: ", cmd.as_str()))
}

/// The request in a JSON text.
pub open spec fn request_in(t: Seq<char>) -> RequestView {
    RequestView {
        cmd: json::json_string(t, "cmd"@),
        dest: json::json_string(t, "dest"@),
        data: json::json_string(t, "data"@),
        name: json::json_string(t, "name"@),
        key: json::json_string(t, "key"@),
        endpoint: json::json_string(t, "endpoint"@),
    }
}

/// Reads a request; the error is what is wrong with the JSON.
pub fn read_request(t: &str) -> (r: Result<ApiRequest, String>)
    ensures
        (match r {
            Ok(q) => json::json_fault(t@) is None && q@ == request_in(t@),
            Err(e) => json::json_fault(t@) == Some(e@),
        }),
{
    let cmd: Option<String> = json::read_field(t, "cmd")?;
    let dest: Option<String> = json::read_field(t, "dest")?;
    let data: Option<String> = json::read_field(t, "data")?;
    let name: Option<String> = json::read_field(t, "name")?;
    let key: Option<String> = json::read_field(t, "key")?;
    let endpoint: Option<String> = json::read_field(t, "endpoint")?;
    Ok(ApiRequest { cmd, dest, data, name, key, endpoint })
}

/// What is to be done with a line of a connection.
#[derive(Debug, PartialEq, Eq)]
pub enum LineAction {
    /// Nothing: the line is blank.
    Skip,
    /// Respond at once.
    Reply(ApiResponse),
    /// Carry out a command.
    Run(ApiCommand),
}

/// Whether an action is the one that a command, or what is wrong with its request, asks
/// for.
pub open spec fn acts(r: Result<CommandView, Seq<char>>, a: LineAction) -> bool {
    match r {
        Ok(c) => a matches LineAction::Run(k) && k@ == c,
        Err(e) => a matches LineAction::Reply(ApiResponse::Error(m)) && m@ == e,
    }
}

/// What a line, without the white space around it, asks for.
pub open spec fn line_asks(line: Seq<char>) -> Result<CommandView, Seq<char>> {
    let t = text::trim_end(text::trim_start(line));
    match json::json_fault(t) {
        Some(e) => Err("Invalid JSON: "@ + e),
        None => command_of(request_in(t)),
    }
}

/// What is to be done with a request that was read.
pub fn take_request(r: Result<ApiRequest, String>) -> (a: LineAction)
    ensures
        (match r {
            Ok(q) => acts(command_of(q@), a),
            Err(e) => acts(Err("Invalid JSON: "@ + e@), a),
        }),
{
    match r {
        Ok(q) => match parse_command(&q) {
            Ok(c) => LineAction::Run(c),
            Err(e) => LineAction::Reply(ApiResponse::Error(e)),
        },
        Err(e) => LineAction::Reply(ApiResponse::Error(text::join("Invalid JSON: ", e.as_str()))),
    }
}

/// What is to be done with a line of a connection.
pub fn take_line(line: &str) -> (a: LineAction)
    ensures
        a is Skip <==> text::trim_end(text::trim_start(line@)).len() == 0,
        !(a is Skip) ==> acts(line_asks(line@), a),
{
    let chars: Vec<char> = text::chars_of(line);
    let (from, to) = text::trim(chars.as_slice());
    if from == to {
        return LineAction::Skip;
    }
    let t: String = text::string_of(vstd::slice::slice_subrange(chars.as_slice(), from, to));
    take_request(read_request(t.as_str()))
}

/// The word that the response to a command has where it succeeds.
pub open spec fn done_word(c: CommandView) -> Seq<char> {
    match c {
        CommandView::Express { .. } => "sent"@,
        CommandView::Publish { .. } => "published"@,
        CommandView::Status => "status"@,
        CommandView::Connect { .. } => "connecting"@,
        CommandView::SendOverLink { .. } => "sent"@,
        CommandView::SendResource { .. } => "sent"@,
        CommandView::SeedPeer { .. } => "peer_seeded"@,
    }
}

impl ApiCommand {
    /// The word that the response has where the command succeeds.
    pub fn done(&self) -> (w: &'static str)
        ensures
            w@ == done_word(self@),
    {
        match self {
            ApiCommand::Express { .. } => "sent",
            ApiCommand::Publish { .. } => "published",
            ApiCommand::Status => "status",
            ApiCommand::Connect { .. } => "connecting",
            ApiCommand::SendOverLink { .. } => "sent",
            ApiCommand::SendResource { .. } => "sent",
            ApiCommand::SeedPeer { .. } => "peer_seeded",
        }
    }
}

/// What came of handing a command to the daemon.
#[derive(Debug, PartialEq, Eq)]
pub enum Outcome {
    /// The daemon takes no commands.
    Unavailable,
    /// The daemon did not answer.
    Lost,
    /// The command was carried out, or failed.
    Result(Result<(), String>),
    Status(DaemonStatus),
}

/// Whether a response tells an outcome.
pub open spec fn tells(word: Seq<char>, o: Outcome, r: ApiResponse) -> bool {
    match o {
        Outcome::Unavailable => r matches ApiResponse::Error(m) && m@ == "Daemon not available"@,
        Outcome::Lost => r matches ApiResponse::Error(m) && m@ == "Daemon response lost"@,
        Outcome::Result(Ok(_)) => r matches ApiResponse::Done(w) && w@ == word,
        Outcome::Result(Err(e)) => r == ApiResponse::Error(e),
        Outcome::Status(s) => r == ApiResponse::Status(s),
    }
}

/// The response that tells an outcome; `word` is for success.
pub fn respond(word: &'static str, o: Outcome) -> (r: ApiResponse)
    ensures
        tells(word@, o, r),
{
    match o {
        Outcome::Unavailable => ApiResponse::Error("Daemon not available".to_owned()),
        Outcome::Lost => ApiResponse::Error("Daemon response lost".to_owned()),
        Outcome::Result(Ok(_)) => ApiResponse::Done(word),
        Outcome::Result(Err(e)) => ApiResponse::Error(e),
        Outcome::Status(s) => ApiResponse::Status(s),
    }
}

/// A response as JSON.
pub open spec fn response_text(r: ApiResponse) -> Seq<char> {
    match r {
        ApiResponse::Done(word) => "{\"ok\":true,\"result\":"@ + json::quoted(word@) + "}"@,
        ApiResponse::Status(s) => "{\"ok\":true,\"result\":{\"address\":"@ + json::quoted(s.address@)
            + ",\"link_count\":"@ + text::decimal(s.link_count as nat) + ",\"medium_count\":"@
            + text::decimal(s.medium_count as nat) + ",\"peer_count\":"@ + text::decimal(
            s.peer_count as nat,
        ) + "}}"@,
        ApiResponse::Error(e) => "{\"error\":"@ + json::quoted(e@) + ",\"ok\":false}"@,
    }
}

impl ApiResponse {
    /// The line that a response is sent as.
    pub fn to_line(&self) -> (line: String)
        ensures
            line@ == response_text(*self) + "\n"@,
    {
        let mut line: String = String::new();
        match self {
            ApiResponse::Done(word) => {
                line.append("{\"ok\":true,\"result\":");
                line.append(json::quote(word).as_str());
                line.append("}");
            },
            ApiResponse::Status(s) => {
                line.append("{\"ok\":true,\"result\":{\"address\":");
                line.append(json::quote(s.address.as_str()).as_str());
                line.append(",\"link_count\":");
                line.append(text::to_decimal(s.link_count as u64).as_str());
                line.append(",\"medium_count\":");
                line.append(text::to_decimal(s.medium_count as u64).as_str());
                line.append(",\"peer_count\":");
                line.append(text::to_decimal(s.peer_count as u64).as_str());
                line.append("}}");
            },
            ApiResponse::Error(e) => {
                line.append("{\"error\":");
                line.append(json::quote(e.as_str()).as_str());
                line.append(",\"ok\":false}");
            },
        }
        assert(line@ =~= response_text(*self));
        line.append("\n");
        line
    }
}

/// The text of a response holds no line feed: with the one behind it, it is one line.
pub proof fn law_one_line(r: ApiResponse)
    ensures
        !response_text(r).contains('\n'),
{
    broadcast use lemma_no_break;

    match r {
        ApiResponse::Done(word) => {
            json::lemma_escaped_one_line(word@);
            reveal_strlit("{\"ok\":true,\"result\":");
            reveal_strlit("}");
        },
        ApiResponse::Status(s) => {
            json::lemma_escaped_one_line(s.address@);
            lemma_decimal_one_line(s.link_count as nat);
            lemma_decimal_one_line(s.medium_count as nat);
            lemma_decimal_one_line(s.peer_count as nat);
            reveal_strlit("{\"ok\":true,\"result\":{\"address\":");
            reveal_strlit(",\"link_count\":");
            reveal_strlit(",\"medium_count\":");
            reveal_strlit(",\"peer_count\":");
            reveal_strlit("}}");
        },
        ApiResponse::Error(e) => {
            json::lemma_escaped_one_line(e@);
            reveal_strlit("{\"error\":");
            reveal_strlit(",\"ok\":false}");
        },
    }
}

broadcast proof fn lemma_no_break(a: Seq<char>, b: Seq<char>)
    requires
        !a.contains('\n'),
        !b.contains('\n'),
    ensures
        !(#[trigger] (a + b)).contains('\n'),
{
    assert forall|i: int| 0 <= i < (a + b).len() implies (a + b)[i] != '\n' by {
        if i < a.len() {
            assert((a + b)[i] == a[i]);
        } else {
            assert((a + b)[i] == b[i - a.len()]);
        }
    }
}

proof fn lemma_decimal_one_line(n: nat)
    ensures
        !text::decimal(n).contains('\n'),
    decreases n,
{
    if n >= 10 {
        lemma_decimal_one_line(n / 10);
        let a = text::decimal(n / 10);
        let last = ('0' as int + n % 10) as char;
        assert forall|i: int| 0 <= i < text::decimal(n).len() implies text::decimal(n)[i]
            != '\n' by {
            if i < a.len() {
                assert(a.push(last)[i] == a[i]);
            }
        }
    }
}

/// What is to be done once a link has been asked for.
pub open spec fn connect_effect(r: Result<Option<Outgoing>, DaemonError>, e: Effect) -> bool {
    match r {
        Ok(Some(out)) => e matches Effect::Send(v) && v@ == seq![out],
        Ok(None) => e matches Effect::Reply(Ok(_)),
        Err(x) => e matches Effect::Reply(Err(m)) && m@ == x.message(),
    }
}

/// What is to be done once a message has been given to a link.
pub open spec fn send_effect(r: Result<Outgoing, DaemonError>, e: Effect) -> bool {
    match r {
        Ok(out) => e matches Effect::Send(v) && v@ == seq![out],
        Err(x) => e matches Effect::Reply(Err(m)) && m@ == x.message(),
    }
}

impl Daemon {
    /// The status of the daemon, which has some media.
    pub fn status(&self, medium_count: usize) -> (s: DaemonStatus)
        requires
            self.wf(),
        ensures
            s.address@ == text::hex_text(self.address()),
            s.link_count == self.channels@.dom().len(),
            s.peer_count == self.peers().dom().len(),
            s.medium_count == medium_count,
    {
        DaemonStatus {
            address: self.keys.rns_address().to_string(),
            link_count: self.link_count(),
            peer_count: self.peer_count(),
            medium_count,
        }
    }

    /// What carrying out a `Connect` command leads to.
    pub open spec fn connect_done(
        before: Daemon,
        after: Daemon,
        dest: Seq<u8>,
        e: Effect,
    ) -> bool {
        exists|remote: RnsAddress, r: Result<Option<Outgoing>, DaemonError>|
            remote@ == dest && #[trigger] Daemon::connecting(before, after, remote, r)
                && connect_effect(r, e)
    }

    /// What carrying out a `SendOverLink` command leads to, for some random values.
    pub open spec fn send_done(
        before: Daemon,
        after: Daemon,
        dest: Seq<u8>,
        data: Seq<u8>,
        e: Effect,
    ) -> bool {
        exists|
            remote: RnsAddress,
            ephemeral: Seq<u8>,
            iv: Seq<u8>,
            r: Result<Outgoing, DaemonError>,
        |
            remote@ == dest && #[trigger] Daemon::sending(
                before,
                after,
                remote,
                data,
                ephemeral,
                iv,
                r,
            ) && send_effect(r, e)
    }

    fn execute_connect(&mut self, dest: [u8; 16]) -> (e: Effect)
        requires
            old(self).wf(),
        ensures
            final(self).wf(),
            Self::connect_done(*old(self), *final(self), dest@, e),
    {
        let remote: RnsAddress = RnsAddress(dest);
        let r: Result<Option<Outgoing>, DaemonError> = self.connect(remote);
        let e: Effect = match r {
            Ok(Some(out)) => {
                let mut v: Vec<Outgoing> = Vec::new();
                v.push(out);
                assert(v@ =~= seq![out]);
                Effect::Send(v)
            },
            Ok(None) => Effect::Reply(Ok(())),
            Err(x) => Effect::Reply(Err(x.to_string())),
        };
        assert(connect_effect(r, e));
        assert(Daemon::connecting(*old(self), *self, remote, r));
        e
    }

    fn execute_send(&mut self, dest: [u8; 16], data: Vec<u8>) -> (e: Effect)
        requires
            old(self).wf(),
        ensures
            final(self).wf(),
            Self::send_done(*old(self), *final(self), dest@, data@, e),
    {
        let remote: RnsAddress = RnsAddress(dest);
        let r: Result<Outgoing, DaemonError> = self.send_over_link(remote, data);
        let e: Effect = match r {
            Ok(out) => {
                let mut v: Vec<Outgoing> = Vec::new();
                v.push(out);
                assert(v@ =~= seq![out]);
                Effect::Send(v)
            },
            Err(x) => Effect::Reply(Err(x.to_string())),
        };
        assert(send_effect(r, e));
        e
    }

    /// What carrying out a command leads to. A `Status` command leaves the daemon as it
    /// is; the others change it as the functions for them do, and tell what is to be
    /// sent.
    pub open spec fn carried_out(
        before: Daemon,
        after: Daemon,
        c: CommandView,
        media: usize,
        now: TimeSpan,
        e: Effect,
    ) -> bool {
        match c {
            CommandView::Express { dest, data } => {
                &&& after == before
                &&& (e matches Effect::Send(v) && v@.len() == 1 && v@[0].to@ == dest && v@[0].bytes@
                    == data)
            },
            CommandView::Status => {
                &&& after == before
                &&& (e matches Effect::Status(s) && s.address@ == text::hex_text(before.address())
                    && s.link_count == before.channels@.dom().len() && s.peer_count
                    == before.peers().dom().len() && s.medium_count == media)
            },
            CommandView::Connect { dest } => Daemon::connect_done(before, after, dest, e),
            CommandView::SendOverLink { dest, data } => Daemon::send_done(
                before,
                after,
                dest,
                data,
                e,
            ),
            CommandView::SendResource { dest, data } => {
                &&& after == before
                &&& (e matches Effect::SendEach(to, v) && to@ == dest && wire::all_bytes(v@)
                    == commands::segment_records(data))
            },
            CommandView::Publish { name, data } => e matches Effect::Reply(r) && Daemon::publishing(
                before,
                after,
                name,
                data,
                now,
                r,
            ),
            CommandView::SeedPeer { dest, key_hex, udp_endpoint } => {
                match text::hex_bytes(utf8::encode_utf8(key_hex)) {
                    Some(b) => if b.len() == 32 {
                        &&& after.peers() == before.peers().insert(dest, b)
                        &&& after == Daemon { peer_keys: after.peer_keys, ..before }
                        &&& (e matches Effect::AddEndpoint(a, s) && a@ == dest && s@
                            == udp_endpoint)
                    } else {
                        &&& after == before
                        &&& (e matches Effect::Reply(Err(m)) && m@
                            == "key must be 32 bytes (64 hex chars), got "@ + text::decimal(
                            b.len(),
                        ))
                    },
                    None => {
                        &&& after == before
                        &&& (e matches Effect::Reply(Err(m)) && m@ == "invalid key hex: "@
                            + text::hex_complaint(key_hex))
                    },
                }
            },
        }
    }

    /// Carries out a command. What is to be sent, or registered with the media, is
    /// returned; once that is done the command is answered.
    pub fn execute(&mut self, c: ApiCommand, media: usize, now: TimeSpan) -> (e: Effect)
        requires
            old(self).wf(),
        ensures
            final(self).wf(),
            Self::carried_out(*old(self), *final(self), c@, media, now, e),
    {
        match c {
            ApiCommand::Express { dest, data } => {
                let mut v: Vec<Outgoing> = Vec::new();
                v.push(Outgoing { to: RnsAddress(dest), bytes: data });
                Effect::Send(v)
            },
            ApiCommand::Status => Effect::Status(self.status(media)),
            ApiCommand::Connect { dest } => self.execute_connect(dest),
            ApiCommand::SendOverLink { dest, data } => self.execute_send(dest, data),
            ApiCommand::SendResource { dest, data } => {
                Effect::SendEach(RnsAddress(dest), commands::resource_segments(data))
            },
            ApiCommand::Publish { name, data } => {
                Effect::Reply(self.publish_named(name.as_str(), data, now))
            },
            ApiCommand::SeedPeer { dest, key_hex, udp_endpoint } => {
                let addr: RnsAddress = RnsAddress(dest);
                match self.seed_peer(addr, key_hex.as_str()) {
                    Ok(_) => Effect::AddEndpoint(addr, udp_endpoint),
                    Err(x) => Effect::Reply(Err(x.to_string())),
                }
            },
        }
    }
}

/// What is to be done for a command.
pub enum Effect {
    /// The command is done.
    Reply(Result<(), String>),
    /// This is the status.
    Status(DaemonStatus),
    /// These bytes are to be sent, and the outcome is the reply.
    Send(Vec<Outgoing>),
    /// These messages are to be sent on the link to a peer, in order, until one fails.
    SendEach(RnsAddress, Vec<Vec<u8>>),
    /// The endpoint of a peer is to be registered with every medium.
    AddEndpoint(RnsAddress, String),
}

/// A command is read only from what the request says: the destination has 16 bytes in
/// hexadecimal in the field for it, data is in hexadecimal in its field, and the other
/// fields are taken as they are.
pub proof fn law_command_comes_from_fields(r: RequestView, c: CommandView)
    requires
        command_of(r) == Ok::<CommandView, Seq<char>>(c),
    ensures
        c matches CommandView::Express { dest, data } ==> r.cmd == Some("express"@)
            && is_field(r.dest, dest) && dest.len() == 16 && is_field(r.data, data),
        c matches CommandView::SendOverLink { dest, data } ==> r.cmd == Some("send"@) && is_field(
            r.dest,
            dest,
        ) && dest.len() == 16 && is_field(r.data, data),
        c matches CommandView::SendResource { dest, data } ==> r.cmd == Some("send_resource"@)
            && is_field(r.dest, dest) && dest.len() == 16 && is_field(r.data, data),
        c matches CommandView::Publish { name, data } ==> r.cmd == Some("publish"@) && r.name
            == Some(name) && is_field(r.data, data),
        c matches CommandView::Connect { dest } ==> r.cmd == Some("connect"@) && is_field(
            r.dest,
            dest,
        ) && dest.len() == 16,
        c matches CommandView::SeedPeer { dest, key_hex, udp_endpoint } ==> r.cmd == Some(
            "seed_peer"@,
        ) && is_field(r.dest, dest) && dest.len() == 16 && r.key == Some(key_hex) && r.endpoint
            == Some(udp_endpoint),
        c is Status ==> r.cmd == Some("status"@),
{
}

/// Whether a field holds some bytes in hexadecimal.
pub open spec fn is_field(field: Option<Seq<char>>, bytes: Seq<u8>) -> bool {
    field matches Some(t) && text::hex_bytes(utf8::encode_utf8(t)) == Some(bytes)
}

/// A request that has all fields of its command, each as it should be, is that command.
pub proof fn law_complete_request_is_read(r: RequestView, dest: Seq<u8>, data: Seq<u8>)
    requires
        is_field(r.dest, dest),
        dest.len() == 16,
        is_field(r.data, data),
        r.name is Some,
        r.key is Some,
        r.endpoint is Some,
    ensures
        r.cmd == Some("express"@) ==> command_of(r) == Ok::<CommandView, Seq<char>>(
            CommandView::Express { dest, data },
        ),
        r.cmd == Some("publish"@) ==> command_of(r) == Ok::<CommandView, Seq<char>>(
            CommandView::Publish { name: r.name->0, data },
        ),
        r.cmd == Some("status"@) ==> command_of(r) == Ok::<CommandView, Seq<char>>(
            CommandView::Status,
        ),
        r.cmd == Some("connect"@) ==> command_of(r) == Ok::<CommandView, Seq<char>>(
            CommandView::Connect { dest },
        ),
        r.cmd == Some("send"@) ==> command_of(r) == Ok::<CommandView, Seq<char>>(
            CommandView::SendOverLink { dest, data },
        ),
        r.cmd == Some("send_resource"@) ==> command_of(r) == Ok::<CommandView, Seq<char>>(
            CommandView::SendResource { dest, data },
        ),
        r.cmd == Some("seed_peer"@) ==> command_of(r) == Ok::<CommandView, Seq<char>>(
            CommandView::SeedPeer { dest, key_hex: r.key->0, udp_endpoint: r.endpoint->0 },
        ),
{
    reveal_strlit("express");
    reveal_strlit("publish");
    reveal_strlit("status");
    reveal_strlit("connect");
    reveal_strlit("send");
    reveal_strlit("send_resource");
    reveal_strlit("seed_peer");
    assert("express"@.len() == 7 && "publish"@.len() == 7 && "status"@.len() == 6);
    assert("connect"@.len() == 7 && "send"@.len() == 4);
    assert("send_resource"@.len() == 13 && "seed_peer"@.len() == 9);
    assert("express"@[0] == 'e' && "publish"@[0] == 'p' && "connect"@[0] == 'c');
}

/// A request without a command, or whose destination is missing, is refused.
pub proof fn law_incomplete_request_is_refused(r: RequestView)
    ensures
        r.cmd is None ==> command_of(r) is Err,
        r.dest is None && (r.cmd == Some("express"@) || r.cmd == Some("connect"@) || r.cmd == Some(
            "send"@,
        ) || r.cmd == Some("send_resource"@) || r.cmd == Some("seed_peer"@)) ==> command_of(
            r,
        ) is Err,
        r.data is None && (r.cmd == Some("express"@) || r.cmd == Some("publish"@) || r.cmd == Some(
            "send"@,
        ) || r.cmd == Some("send_resource"@)) ==> command_of(r) is Err,
{
    reveal_strlit("express");
    reveal_strlit("publish");
    reveal_strlit("status");
    reveal_strlit("connect");
    reveal_strlit("send");
    reveal_strlit("send_resource");
    reveal_strlit("seed_peer");
    assert("express"@.len() == 7 && "publish"@.len() == 7 && "status"@.len() == 6);
    assert("connect"@.len() == 7 && "send"@.len() == 4);
    assert("send_resource"@.len() == 13 && "seed_peer"@.len() == 9);
    assert("express"@[0] == 'e' && "publish"@[0] == 'p' && "connect"@[0] == 'c');
}

/// An error of the daemon is what is told; a command that was done is told as done, and
/// nothing else is.
pub proof fn law_outcome_is_told(word: Seq<char>, o: Outcome, r: ApiResponse)
    requires
        tells(word, o, r),
    ensures
        r is Error <==> (o is Unavailable || o is Lost || (o matches Outcome::Result(Err(_)))),
        r is Done <==> (o matches Outcome::Result(Ok(_))),
        r is Status <==> o is Status,
        r matches ApiResponse::Done(w) ==> w@ == word,
        o matches Outcome::Result(Err(e)) ==> (r matches ApiResponse::Error(m) && m@ == e@),
{
}

/// What a line asks for is what is done; where it asks for nothing sensible, an error
/// answers, and nothing is done.
pub proof fn law_line_is_acted_on(asked: Result<CommandView, Seq<char>>, a: LineAction)
    requires
        acts(asked, a),
    ensures
        a matches LineAction::Run(k) ==> asked == Ok::<CommandView, Seq<char>>(k@),
        asked is Err ==> (a matches LineAction::Reply(ApiResponse::Error(_))),
        asked is Ok ==> a is Run,
{
}

/// To express bytes is to send exactly these to the destination; to ask for the status
/// changes nothing.
pub proof fn law_express_sends_bytes(
    before: Daemon,
    after: Daemon,
    dest: Seq<u8>,
    data: Seq<u8>,
    media: usize,
    now: TimeSpan,
    e: Effect,
)
    requires
        Daemon::carried_out(
            before,
            after,
            CommandView::Express { dest, data },
            media,
            now,
            e,
        ),
    ensures
        after == before,
        e matches Effect::Send(v) && v@.len() == 1 && v@[0].to@ == dest && v@[0].bytes@ == data,
{
}

/// The status tells the address and the numbers of links and peers as they are.
pub proof fn law_status_tells_state(
    before: Daemon,
    after: Daemon,
    media: usize,
    now: TimeSpan,
    e: Effect,
)
    requires
        Daemon::carried_out(before, after, CommandView::Status, media, now, e),
    ensures
        after == before,
        e matches Effect::Status(s) && s.link_count == before.channels@.dom().len() && s.peer_count
            == before.peers().dom().len() && s.medium_count == media && text::hex_bytes(
            utf8::encode_utf8(s.address@),
        ) == Some(crate::crypto::primitives::sha256_digest(before.keys.identity()).subrange(0, 16)),
{
    text::law_hex_roundtrip(before.address());
}

/// To connect to a peer that there is no link to sends something to that peer alone, and
/// the link is then pending.
pub proof fn law_connect_command(
    before: Daemon,
    after: Daemon,
    dest: Seq<u8>,
    media: usize,
    now: TimeSpan,
    e: Effect,
)
    requires
        Daemon::carried_out(before, after, CommandView::Connect { dest }, media, now, e),
    ensures
        !before.channels@.dom().contains(dest) && !before.pending_channels@.dom().contains(dest)
            ==> after.pending_channels@.dom().contains(dest) && (e matches Effect::Send(v)
            && v@.len() == 1 && v@[0].to@ == dest),
        before.channels@.dom().contains(dest) || before.pending_channels@.dom().contains(dest)
            ==> after == before && (e matches Effect::Reply(Ok(_))),
{
    let (remote, r): (RnsAddress, Result<Option<Outgoing>, DaemonError>) = choose|
        remote: RnsAddress,
        r: Result<Option<Outgoing>, DaemonError>,
    |
        remote@ == dest && #[trigger] Daemon::connecting(before, after, remote, r)
            && connect_effect(r, e);
    commands::law_connect_begins_link(before, after, remote, r);
}

/// A message for a peer without a link is refused, and nothing changes; what is sent goes
/// to that peer alone.
pub proof fn law_send_command(
    before: Daemon,
    after: Daemon,
    dest: Seq<u8>,
    data: Seq<u8>,
    media: usize,
    now: TimeSpan,
    e: Effect,
)
    requires
        Daemon::carried_out(
            before,
            after,
            CommandView::SendOverLink { dest, data },
            media,
            now,
            e,
        ),
    ensures
        !before.channels@.dom().contains(dest) ==> after == before && (e matches Effect::Reply(
            Err(_),
        )),
        e matches Effect::Send(v) ==> v@.len() == 1 && v@[0].to@ == dest,
        (e matches Effect::Send(_)) || (e matches Effect::Reply(Err(_))),
{
    let (remote, ephemeral, iv, r): (RnsAddress, Seq<u8>, Seq<u8>, Result<Outgoing, DaemonError>) =
        choose|
        remote: RnsAddress,
        ephemeral: Seq<u8>,
        iv: Seq<u8>,
        r: Result<Outgoing, DaemonError>,
    |
        remote@ == dest && #[trigger] Daemon::sending(
            before,
            after,
            remote,
            data,
            ephemeral,
            iv,
            r,
        ) && send_effect(r, e);
    commands::law_no_link_no_message(before, after, remote, data, ephemeral, iv, r);
}

/// To seed a peer makes its key known under its address, and its endpoint is registered;
/// what is no key of 32 bytes in hexadecimal is refused, and nothing changes.
pub proof fn law_seeded_peer_is_known(
    before: Daemon,
    after: Daemon,
    dest: Seq<u8>,
    key_hex: Seq<char>,
    udp_endpoint: Seq<char>,
    key: Seq<u8>,
    media: usize,
    now: TimeSpan,
    e: Effect,
)
    requires
        Daemon::carried_out(
            before,
            after,
            CommandView::SeedPeer { dest, key_hex, udp_endpoint },
            media,
            now,
            e,
        ),
    ensures
        text::hex_bytes(utf8::encode_utf8(key_hex)) == Some(key) && key.len() == 32 ==> {
            &&& after.peers().dom().contains(dest)
            &&& after.peers()[dest] == key
            &&& forall|k: Seq<u8>|
                k != dest && #[trigger] before.peers().dom().contains(k) ==> after.peers()[k]
                    == before.peers()[k]
            &&& (e matches Effect::AddEndpoint(a, s) && a@ == dest && s@ == udp_endpoint)
        },
        text::hex_bytes(utf8::encode_utf8(key_hex)) == Some(key) && key.len() != 32 ==> after
            == before && (e matches Effect::Reply(Err(_))),
        text::hex_bytes(utf8::encode_utf8(key_hex)) is None ==> after == before && (
        e matches Effect::Reply(Err(_))),
{
}

/// A response tells in its text whether all went well: an error gives its message and that
/// it did not, and all else a result and that it did.
pub proof fn law_response_texts(word: &'static str, s: DaemonStatus, e: String)
    ensures
        response_text(ApiResponse::Done(word)) == "{\"ok\":true,\"result\":"@ + json::quoted(word@)
            + "}"@,
        response_text(ApiResponse::Error(e)) == "{\"error\":"@ + json::quoted(e@)
            + ",\"ok\":false}"@,
        response_text(ApiResponse::Status(s)) == "{\"ok\":true,\"result\":{\"address\":"@
            + json::quoted(s.address@) + ",\"link_count\":"@ + text::decimal(s.link_count as nat)
            + ",\"medium_count\":"@ + text::decimal(s.medium_count as nat) + ",\"peer_count\":"@
            + text::decimal(s.peer_count as nat) + "}}"@,
{
}

/// What was done is told by the word for the command.
pub proof fn law_words(c: CommandView)
    ensures
        c is Express || c is SendOverLink || c is SendResource ==> done_word(c) == "sent"@,
        c is Publish ==> done_word(c) == "published"@,
        c is Connect ==> done_word(c) == "connecting"@,
        c is SeedPeer ==> done_word(c) == "peer_seeded"@,
{
}

/// A request is read from the fields of its name.
pub proof fn law_request_fields(t: Seq<char>)
    ensures
        request_in(t).cmd == json::json_string(t, "cmd"@),
        request_in(t).dest == json::json_string(t, "dest"@),
        request_in(t).data == json::json_string(t, "data"@),
        request_in(t).name == json::json_string(t, "name"@),
        request_in(t).key == json::json_string(t, "key"@),
        request_in(t).endpoint == json::json_string(t, "endpoint"@),
{
}

/// A blank line is passed over. Any other is acted on: as the command that it asks for
/// without the white space around it, or with an error where it is no JSON.
pub proof fn law_lines_are_taken(line: &str, a: LineAction)
    requires
        call_ensures(take_line, (line,), a),
    ensures
        ({
            let t = text::trim_end(text::trim_start(line@));
            &&& (a is Skip <==> t.len() == 0)
            &&& (t.len() > 0 && json::json_fault(t) is Some ==> (a matches LineAction::Reply(
                ApiResponse::Error(m),
            ) && m@ == "Invalid JSON: "@ + json::json_fault(t)->0))
            &&& (t.len() > 0 && json::json_fault(t) is None ==> acts(
                command_of(request_in(t)),
                a,
            ))
        }),
{
}

/// To publish under a name puts the content in the content store under it; to send a
/// resource is to send its segments to the peer, one by one.
pub proof fn law_publish_and_resource_commands(
    before: Daemon,
    after: Daemon,
    name: Seq<char>,
    data: Seq<u8>,
    media: usize,
    now: TimeSpan,
    e: Effect,
    dest: Seq<u8>,
    same: Daemon,
    f: Effect,
)
    requires
        before.wf(),
        Daemon::carried_out(before, after, CommandView::Publish { name, data }, media, now, e),
        Daemon::carried_out(
            before,
            same,
            CommandView::SendResource { dest, data },
            media,
            now,
            f,
        ),
    ensures
        (text::hex_bytes(utf8::encode_utf8(name)) matches Some(b) && b.len() == 32) ==> (
        e matches Effect::Reply(Ok(_))) && (crate::icn::cs::found(
            after.forwarder.cs.contents(),
            (seq![text::hex_bytes(utf8::encode_utf8(name))->0], None::<Seq<u8>>),
        ) matches Some(c) && c.data@.content == data),
        !(text::hex_bytes(utf8::encode_utf8(name)) matches Some(b) && b.len() == 32) ==> (
        e matches Effect::Reply(Err(_))) && after == before,
        same == before,
        f matches Effect::SendEach(to, v) && to@ == dest && wire::all_bytes(v@)
            == commands::segment_records(data),
{
    let r = e->Reply_0;
    commands::law_published_is_found(before, after, name, data, now, r);
}

} // verus!
