//! The two messages of the wire protocol, commands and responses, and their
//! framing: a magic head, fixed-width metadata, the payload and a CRC-16/ARC
//! trailer over everything before it.

use vstd::prelude::*;
use vstd::slice::slice_subrange;
use vstd::string::*;
use vstd::utf8::*;
use crate::engine::KvsEngine;
use crate::error::KVSError;
use crate::tcp::frame::{
    be_u16, be_u32, checksum, crc16_arc, field_of_len, lemma_be_u16_round_trip,
    lemma_be_u32_round_trip, length_field, lossy_text, push_all, push_u16, push_u32, read_u16,
    read_u32, sealed, u16_at, u32_at, utf8_lossy, CMD_HEAD,
};

verus! {

/// Opcode of a command that reads a key.
pub const GET_BYTE: u8 = 1;

/// Opcode of a command that binds a key.
pub const SET_BYTE: u8 = 2;

/// Opcode of a command that removes a key.
pub const RM_BYTE: u8 = 3;

/// Status byte of a response that reports success.
pub const SUCCESS_BYTE: u8 = 100;

/// Status byte of a response that reports failure.
pub const FAILURE_BYTE: u8 = 101;

/// A request to the storage engine.
#[derive(Debug, Clone, PartialEq, Eq)]
pub enum DBCommands {
    /// Set up value by key into KVS
    Put { key: String, value: String },
    /// Get value by key
    Get { key: String },
    /// Removes value by key
    Rm { key: String },
}

/// A command as a mathematical value: its kind and its texts.
pub enum Command {
    Put { key: Seq<char>, value: Seq<char> },
    Get { key: Seq<char> },
    Rm { key: Seq<char> },
}

impl Command {
    /// The byte that names the kind of command on the wire.
    pub open spec fn opcode(self) -> u8 {
        match self {
            Command::Get { .. } => GET_BYTE,
            Command::Put { .. } => SET_BYTE,
            Command::Rm { .. } => RM_BYTE,
        }
    }

    /// The key the command is about.
    pub open spec fn key(self) -> Seq<char> {
        match self {
            Command::Get { key } => key,
            Command::Put { key, .. } => key,
            Command::Rm { key } => key,
        }
    }

    /// The value the command carries: empty but for `Put`.
    pub open spec fn value(self) -> Seq<char> {
        match self {
            Command::Put { value, .. } => value,
            _ => Seq::empty(),
        }
    }

    /// Both payloads are short enough for their length fields.
    pub open spec fn fits(self) -> bool {
        &&& encode_utf8(self.key()).len() <= u32::MAX
        &&& encode_utf8(self.value()).len() <= u32::MAX
    }
}

impl View for DBCommands {
    type V = Command;

    open spec fn view(&self) -> Command {
        match self {
            DBCommands::Put { key, value } => Command::Put { key: key@, value: value@ },
            DBCommands::Get { key } => Command::Get { key: key@ },
            DBCommands::Rm { key } => Command::Rm { key: key@ },
        }
    }
}

/// The answer of the server to one command.
#[derive(Debug, Clone, PartialEq, Eq)]
pub enum ServerResponse {
    Success { output: String },
    Failure { message: String },
}

/// A response as a mathematical value: its status and its text.
pub enum Response {
    Success { output: Seq<char> },
    Failure { message: Seq<char> },
}

impl Response {
    /// The byte that tells success from failure on the wire.
    pub open spec fn status(self) -> u8 {
        match self {
            Response::Success { .. } => SUCCESS_BYTE,
            Response::Failure { .. } => FAILURE_BYTE,
        }
    }

    /// The text the response carries.
    pub open spec fn text(self) -> Seq<char> {
        match self {
            Response::Success { output } => output,
            Response::Failure { message } => message,
        }
    }

    /// The text is short enough for its length field.
    pub open spec fn fits(self) -> bool {
        encode_utf8(self.text()).len() <= u32::MAX
    }
}

impl View for ServerResponse {
    type V = Response;

    open spec fn view(&self) -> Response {
        match self {
            ServerResponse::Success { output } => Response::Success { output: output@ },
            ServerResponse::Failure { message } => Response::Failure { message: message@ },
        }
    }
}

/// Everything of a command frame but its trailer: head, opcode, the two
/// length fields, and the payloads as they are.
pub open spec fn command_body(opcode: u8, key: Seq<u8>, value: Seq<u8>) -> Seq<u8> {
    seq![27u8, 59u8, opcode] + be_u32(length_field(key.len())) + be_u32(length_field(value.len()))
        + key + value
}

/// The bytes of a command frame: the body with the key and the value in
/// UTF-8, and the checksum of the body.
pub open spec fn command_frame(c: Command) -> Seq<u8> {
    sealed(command_body(c.opcode(), encode_utf8(c.key()), encode_utf8(c.value())))
}

/// Everything of a response frame but its trailer: head, status, the length
/// field, and the payload as it is.
pub open spec fn response_body(status: u8, text: Seq<u8>) -> Seq<u8> {
    seq![27u8, 59u8, status] + be_u32(length_field(text.len())) + text
}

/// The bytes of a response frame: the body with the text in UTF-8, and the
/// checksum of the body.
pub open spec fn response_frame(r: Response) -> Seq<u8> {
    sealed(response_body(r.status(), encode_utf8(r.text())))
}

/// The first two bytes are the magic head.
pub open spec fn head_matches(head: Seq<u8>) -> bool {
    head[0] == 27 && head[1] == 59
}

/// The full length of the command frame whose header `bytes` starts with.
pub open spec fn command_frame_len(bytes: Seq<u8>) -> int {
    13 + u32_at(bytes, 3) + u32_at(bytes, 7)
}

/// The full length of the response frame whose header `bytes` starts with.
pub open spec fn response_frame_len(bytes: Seq<u8>) -> int {
    9 + u32_at(bytes, 3)
}

/// What reading one command frame from the start of `bytes` gives. The checks
/// come in the order of the fields: the head is judged as soon as it is
/// there, a frame that ends early is an I/O error, the checksum is compared
/// once the whole frame is there, and the opcode is judged last. Bytes after
/// the frame are not looked at, and the value of a `Get` or `Rm` frame is
/// read and dropped.
pub open spec fn decode_command(bytes: Seq<u8>) -> Result<Command, KVSError> {
    if bytes.len() < 2 {
        Err(KVSError::IOError)
    } else if !head_matches(bytes) {
        Err(KVSError::ProtocolHeadMismatch)
    } else if bytes.len() < 11 || bytes.len() < command_frame_len(bytes) {
        Err(KVSError::IOError)
    } else {
        let key_end = 11 + u32_at(bytes, 3);
        let value_end = key_end + u32_at(bytes, 7);
        let key = utf8_lossy(bytes.subrange(11, key_end));
        let value = utf8_lossy(bytes.subrange(key_end, value_end));
        if u16_at(bytes, value_end) != crc16_arc(bytes.take(value_end)) {
            Err(KVSError::ProtocolChecksumMismatch)
        } else if bytes[2] == GET_BYTE {
            Ok(Command::Get { key })
        } else if bytes[2] == SET_BYTE {
            Ok(Command::Put { key, value })
        } else if bytes[2] == RM_BYTE {
            Ok(Command::Rm { key })
        } else {
            Err(KVSError::ProtocolUnknownOpcode)
        }
    }
}

/// What reading one response frame from the start of `bytes` gives, with the
/// checks in the same order as for a command.
pub open spec fn decode_response(bytes: Seq<u8>) -> Result<Response, KVSError> {
    if bytes.len() < 2 {
        Err(KVSError::IOError)
    } else if !head_matches(bytes) {
        Err(KVSError::ProtocolHeadMismatch)
    } else if bytes.len() < 7 || bytes.len() < response_frame_len(bytes) {
        Err(KVSError::IOError)
    } else {
        let text_end = 7 + u32_at(bytes, 3);
        let text = utf8_lossy(bytes.subrange(7, text_end));
        if u16_at(bytes, text_end) != crc16_arc(bytes.take(text_end)) {
            Err(KVSError::ProtocolChecksumMismatch)
        } else if bytes[2] == SUCCESS_BYTE {
            Ok(Response::Success { output: text })
        } else if bytes[2] == FAILURE_BYTE {
            Ok(Response::Failure { message: text })
        } else {
            Err(KVSError::ProtocolUnknownOpcode)
        }
    }
}

/// How many bytes are still to be read before the frame that starts with
/// `received` can be judged further: the rest of the head, then the rest of
/// the header, then the rest of the frame, and 0 once the frame is complete.
/// A wrong head ends the reading at once.
pub open spec fn command_missing(received: Seq<u8>) -> Result<int, KVSError> {
    if received.len() < 2 {
        Ok(2 - received.len())
    } else if !head_matches(received) {
        Err(KVSError::ProtocolHeadMismatch)
    } else if received.len() < 11 {
        Ok(11 - received.len())
    } else if received.len() < command_frame_len(received) {
        Ok(command_frame_len(received) - received.len())
    } else {
        Ok(0)
    }
}

/// The same count for a response frame.
pub open spec fn response_missing(received: Seq<u8>) -> Result<int, KVSError> {
    if received.len() < 2 {
        Ok(2 - received.len())
    } else if !head_matches(received) {
        Err(KVSError::ProtocolHeadMismatch)
    } else if received.len() < 7 {
        Ok(7 - received.len())
    } else if received.len() < response_frame_len(received) {
        Ok(response_frame_len(received) - received.len())
    } else {
        Ok(0)
    }
}

/// The outcome of decoding a command, with the command as a mathematical
/// value.
pub open spec fn command_outcome(r: Result<DBCommands, KVSError>) -> Result<Command, KVSError> {
    match r {
        Ok(c) => Ok(c@),
        Err(e) => Err(e),
    }
}

/// The outcome of decoding a response, with the response as a mathematical
/// value.
pub open spec fn response_outcome(r: Result<ServerResponse, KVSError>) -> Result<
    Response,
    KVSError,
> {
    match r {
        Ok(c) => Ok(c@),
        Err(e) => Err(e),
    }
}

/// Tells whether `head` starts with the magic head of a frame.
pub fn check_head(head: &[u8]) -> (r: Result<(), KVSError>)
    requires
        head.len() >= 2,
    ensures
        head_matches(head@) ==> r == Ok::<(), KVSError>(()),
        !head_matches(head@) ==> r == Err::<(), KVSError>(KVSError::ProtocolHeadMismatch),
{
    if CMD_HEAD[0] != head[0] || CMD_HEAD[1] != head[1] {
        return Err(KVSError::ProtocolHeadMismatch);
    }
    Ok(())
}

impl DBCommands {
    /// Packs the command into one frame: head, opcode, the two lengths, key,
    /// value and the checksum of all of these. A `Get` or `Rm` carries an
    /// empty value.
    pub fn to_packet(self) -> (r: Result<Vec<u8>, KVSError>)
        ensures
            r matches Ok(packet) && packet@ == command_frame(self@),
    {
        let ghost command = self@;
        let (cmd, key, value) = match self {
            DBCommands::Get { key } => (GET_BYTE, key, String::new()),
            DBCommands::Rm { key } => (RM_BYTE, key, String::new()),
            DBCommands::Put { key, value } => (SET_BYTE, key, value),
        };
        assert(cmd == command.opcode() && key@ == command.key() && value@ == command.value());
        let mut packet: Vec<u8> = Vec::new();
        packet.push(CMD_HEAD[0]);
        packet.push(CMD_HEAD[1]);
        packet.push(cmd);
        assert(packet@ == seq![27u8, 59u8, cmd]);
        let key_bytes: &[u8] = key.as_str().as_bytes();
        let value_bytes: &[u8] = value.as_str().as_bytes();
        push_u32(&mut packet, field_of_len(key_bytes.len()));
        push_u32(&mut packet, field_of_len(value_bytes.len()));
        assert(packet@ == seq![27u8, 59u8, cmd] + be_u32(length_field(key_bytes@.len())) + be_u32(
            length_field(value_bytes@.len()),
        ));
        push_all(&mut packet, key_bytes);
        push_all(&mut packet, value_bytes);
        let crc: u16 = checksum(packet.as_slice());
        push_u16(&mut packet, crc);
        Ok(packet)
    }

    /// Reads one command frame from the start of `stream`, the bytes that
    /// have arrived. Every field is checked in its turn: see
    /// [`decode_command`].
    pub fn from_stream(stream: &[u8]) -> (r: Result<DBCommands, KVSError>)
        ensures
            command_outcome(r) == decode_command(stream@),
    {
        if stream.len() < 2 {
            return Err(KVSError::IOError);
        }
        if let Err(e) = check_head(stream) {
            return Err(e);
        }
        if stream.len() < 11 {
            return Err(KVSError::IOError);
        }
        let key_len: u32 = read_u32(stream, 3);
        let val_len: u32 = read_u32(stream, 7);
        let frame_len: u64 = 13 + key_len as u64 + val_len as u64;
        if (stream.len() as u64) < frame_len {
            return Err(KVSError::IOError);
        }
        let key_end: usize = 11 + key_len as usize;
        let value_end: usize = key_end + val_len as usize;
        let key = lossy_text(slice_subrange(stream, 11, key_end));
        let value = lossy_text(slice_subrange(stream, key_end, value_end));

        let calculated: u16 = checksum(slice_subrange(stream, 0, value_end));
        let received: u16 = read_u16(stream, value_end);
        if calculated != received {
            return Err(KVSError::ProtocolChecksumMismatch);
        }
        let cmd: u8 = stream[2];
        if cmd == GET_BYTE {
            Ok(DBCommands::Get { key })
        } else if cmd == SET_BYTE {
            Ok(DBCommands::Put { key, value })
        } else if cmd == RM_BYTE {
            Ok(DBCommands::Rm { key })
        } else {
            Err(KVSError::ProtocolUnknownOpcode)
        }
    }

    /// How many bytes to read next, given the bytes of a command frame that
    /// have arrived so far; 0 once the frame is complete. See
    /// [`command_missing`].
    pub fn missing(received: &[u8]) -> (r: Result<u64, KVSError>)
        ensures
            match r {
                Ok(n) => command_missing(received@) == Ok::<int, KVSError>(n as int),
                Err(e) => command_missing(received@) == Err::<int, KVSError>(e),
            },
    {
        if received.len() < 2 {
            return Ok((2 - received.len()) as u64);
        }
        if let Err(e) = check_head(received) {
            return Err(e);
        }
        if received.len() < 11 {
            return Ok((11 - received.len()) as u64);
        }
        let key_len: u32 = read_u32(received, 3);
        let val_len: u32 = read_u32(received, 7);
        let frame_len: u64 = 13 + key_len as u64 + val_len as u64;
        if (received.len() as u64) < frame_len {
            Ok(frame_len - received.len() as u64)
        } else {
            Ok(0)
        }
    }
}

impl ServerResponse {
    /// Packs the response into one frame: head, status, the length of the
    /// text, the text and the checksum of all of these.
    pub fn to_packet(self) -> (r: Result<Vec<u8>, KVSError>)
        ensures
            r matches Ok(packet) && packet@ == response_frame(self@),
    {
        let ghost response = self@;
        let (resp_byte, msg) = match self {
            ServerResponse::Success { output } => (SUCCESS_BYTE, output),
            ServerResponse::Failure { message } => (FAILURE_BYTE, message),
        };
        assert(resp_byte == response.status() && msg@ == response.text());
        let mut packet: Vec<u8> = Vec::new();
        packet.push(CMD_HEAD[0]);
        packet.push(CMD_HEAD[1]);
        packet.push(resp_byte);
        assert(packet@ == seq![27u8, 59u8, resp_byte]);
        let msg_bytes: &[u8] = msg.as_str().as_bytes();
        push_u32(&mut packet, field_of_len(msg_bytes.len()));
        assert(packet@ == seq![27u8, 59u8, resp_byte] + be_u32(length_field(msg_bytes@.len())));
        push_all(&mut packet, msg_bytes);
        let crc: u16 = checksum(packet.as_slice());
        push_u16(&mut packet, crc);
        Ok(packet)
    }

    /// Reads one response frame from the start of `stream`, the bytes that
    /// have arrived. Every field is checked in its turn: see
    /// [`decode_response`].
    pub fn from_stream(stream: &[u8]) -> (r: Result<ServerResponse, KVSError>)
        ensures
            response_outcome(r) == decode_response(stream@),
    {
        if stream.len() < 2 {
            return Err(KVSError::IOError);
        }
        if let Err(e) = check_head(stream) {
            return Err(e);
        }
        if stream.len() < 7 {
            return Err(KVSError::IOError);
        }
        let msg_len: u32 = read_u32(stream, 3);
        let frame_len: u64 = 9 + msg_len as u64;
        if (stream.len() as u64) < frame_len {
            return Err(KVSError::IOError);
        }
        let text_end: usize = 7 + msg_len as usize;
        let msg = lossy_text(slice_subrange(stream, 7, text_end));

        let calculated: u16 = checksum(slice_subrange(stream, 0, text_end));
        let received: u16 = read_u16(stream, text_end);
        if calculated != received {
            return Err(KVSError::ProtocolChecksumMismatch);
        }
        let resp_type: u8 = stream[2];
        if resp_type == SUCCESS_BYTE {
            Ok(ServerResponse::Success { output: msg })
        } else if resp_type == FAILURE_BYTE {
            Ok(ServerResponse::Failure { message: msg })
        } else {
            Err(KVSError::ProtocolUnknownOpcode)
        }
    }

    /// How many bytes to read next, given the bytes of a response frame that
    /// have arrived so far; 0 once the frame is complete. See
    /// [`response_missing`].
    pub fn missing(received: &[u8]) -> (r: Result<u64, KVSError>)
        ensures
            match r {
                Ok(n) => response_missing(received@) == Ok::<int, KVSError>(n as int),
                Err(e) => response_missing(received@) == Err::<int, KVSError>(e),
            },
    {
        if received.len() < 2 {
            return Ok((2 - received.len()) as u64);
        }
        if let Err(e) = check_head(received) {
            return Err(e);
        }
        if received.len() < 7 {
            return Ok((7 - received.len()) as u64);
        }
        let msg_len: u32 = read_u32(received, 3);
        let frame_len: u64 = 9 + msg_len as u64;
        if (received.len() as u64) < frame_len {
            Ok(frame_len - received.len() as u64)
        } else {
            Ok(0)
        }
    }
}

/// What the server answers to a `Get`, for each outcome of the engine. A key
/// without a value is reported as a success with the text "Key not found".
pub open spec fn response_to_get(outcome: Result<Option<String>, KVSError>) -> Response {
    match outcome {
        Ok(Some(value)) => Response::Success { output: value@ },
        Ok(None) => Response::Success { output: "Key not found"@ },
        Err(_) => Response::Failure { message: "Internal error"@ },
    }
}

/// What the server answers to a `Put`, for each outcome of the engine.
pub open spec fn response_to_set(outcome: Result<(), KVSError>) -> Response {
    match outcome {
        Ok(_) => Response::Success { output: Seq::empty() },
        Err(_) => Response::Failure { message: "Cant set"@ },
    }
}

/// What the server answers to an `Rm`, for each outcome of the engine.
pub open spec fn response_to_remove(outcome: Result<(), KVSError>) -> Response {
    match outcome {
        Ok(_) => Response::Success { output: Seq::empty() },
        Err(_) => Response::Failure { message: "Key not found"@ },
    }
}

/// The responses that can answer a command, whatever the engine does with
/// it.
pub open spec fn answers(command: Command, response: Response) -> bool {
    match command {
        Command::Get { .. } => response is Success || response == (Response::Failure {
            message: "Internal error"@,
        }),
        Command::Put { .. } => response == (Response::Success { output: Seq::empty() }) || response == (
        Response::Failure { message: "Cant set"@ }),
        Command::Rm { .. } => response == (Response::Success { output: Seq::empty() }) || response == (
        Response::Failure { message: "Key not found"@ }),
    }
}

/// `response` answers `command` run on the engine `before`, which is left as
/// `after`: the engine was asked once, for the operation the command names
/// and with the key and the value the command holds, and `response` is what
/// the outcome of that call becomes by [`response_to_get`],
/// [`response_to_set`] or [`response_to_remove`].
pub open spec fn invoked<S: KvsEngine>(
    command: Command,
    before: &S,
    after: &S,
    response: Response,
) -> bool {
    match command {
        Command::Get { .. } => exists|outcome: Result<Option<String>, KVSError>|
            #[trigger] before.get_gives(command.key(), after, outcome) && response
                == response_to_get(outcome),
        Command::Put { .. } => exists|outcome: Result<(), KVSError>|
            #[trigger] before.set_gives(command.key(), command.value(), after, outcome)
                && response == response_to_set(outcome),
        Command::Rm { .. } => exists|outcome: Result<(), KVSError>|
            #[trigger] before.remove_gives(command.key(), after, outcome) && response
                == response_to_remove(outcome),
    }
}

impl ServerResponse {
    /// The response to a `Get` whose outcome in the engine was `outcome`.
    pub fn for_get(outcome: Result<Option<String>, KVSError>) -> (r: ServerResponse)
        ensures
            r@ == response_to_get(outcome),
    {
        match outcome {
            Ok(Some(value)) => ServerResponse::Success { output: value },
            Ok(None) => ServerResponse::Success { output: "Key not found".to_owned() },
            Err(_) => ServerResponse::Failure { message: "Internal error".to_owned() },
        }
    }

    /// The response to a `Put` whose outcome in the engine was `outcome`.
    pub fn for_set(outcome: Result<(), KVSError>) -> (r: ServerResponse)
        ensures
            r@ == response_to_set(outcome),
    {
        match outcome {
            Ok(_) => ServerResponse::Success { output: String::new() },
            Err(_) => ServerResponse::Failure { message: "Cant set".to_owned() },
        }
    }

    /// The response to an `Rm` whose outcome in the engine was `outcome`.
    pub fn for_remove(outcome: Result<(), KVSError>) -> (r: ServerResponse)
        ensures
            r@ == response_to_remove(outcome),
    {
        match outcome {
            Ok(_) => ServerResponse::Success { output: String::new() },
            Err(_) => ServerResponse::Failure { message: "Key not found".to_owned() },
        }
    }
}

impl DBCommands {
    /// Runs the command on `store` and turns what the store returns into a
    /// response, by [`ServerResponse::for_get`], [`ServerResponse::for_set`]
    /// or [`ServerResponse::for_remove`].
    pub fn invoke_cmd<S: KvsEngine>(&self, store: &mut S) -> (r: ServerResponse)
        ensures
            invoked(self@, old(store), final(store), r@),
            answers(self@, r@),
    {
        match self {
            DBCommands::Get { key } => {
                let outcome = store.get(key.clone());
                assert(old(store).get_gives(self@.key(), store, outcome));
                ServerResponse::for_get(outcome)
            },
            DBCommands::Put { key, value } => {
                let outcome = store.set(key.clone(), value.clone());
                assert(old(store).set_gives(self@.key(), self@.value(), store, outcome));
                ServerResponse::for_set(outcome)
            },
            DBCommands::Rm { key } => {
                let outcome = store.remove(key.clone());
                assert(old(store).remove_gives(self@.key(), store, outcome));
                ServerResponse::for_remove(outcome)
            },
        }
    }
}

/// Packs a command whose key and value fit their length fields into one
/// frame.
pub fn pack_command(command: DBCommands) -> (r: Result<Vec<u8>, KVSError>)
    requires
        command@.fits(),
    ensures
        r matches Ok(packet) && packet@ == command_frame(command@),
{
    command.to_packet()
}

/// Reads one command frame from the start of `stream`.
pub fn unpack_command(stream: &[u8]) -> (r: Result<DBCommands, KVSError>)
    ensures
        command_outcome(r) == decode_command(stream@),
{
    DBCommands::from_stream(stream)
}

/// Packs a response whose text fits its length field into one frame.
pub fn pack_response(resp: ServerResponse) -> (r: Result<Vec<u8>, KVSError>)
    requires
        resp@.fits(),
    ensures
        r matches Ok(packet) && packet@ == response_frame(resp@),
{
    resp.to_packet()
}

/// Reads one response frame from the start of `stream`.
pub fn unpack_response(stream: &[u8]) -> (r: Result<ServerResponse, KVSError>)
    ensures
        response_outcome(r) == decode_response(stream@),
{
    ServerResponse::from_stream(stream)
}

/// Where each field lies in a command body that is followed by a trailer
/// and anything else.
proof fn lemma_command_layout(opcode: u8, key: Seq<u8>, value: Seq<u8>, tail: Seq<u8>)
    requires
        key.len() <= u32::MAX,
        value.len() <= u32::MAX,
    ensures
        ({
            let body = command_body(opcode, key, value);
            let bytes = body + tail;
            let key_end = 11 + key.len() as int;
            let value_end = key_end + value.len() as int;
            &&& body.len() == value_end
            &&& head_matches(bytes)
            &&& bytes[2] == opcode
            &&& u32_at(bytes, 3) == key.len()
            &&& u32_at(bytes, 7) == value.len()
            &&& bytes.subrange(11, key_end) == key
            &&& bytes.subrange(key_end, value_end) == value
            &&& bytes.take(value_end) == body
            &&& tail.len() >= 2 ==> u16_at(bytes, value_end) == u16_at(tail, 0)
        }),
{
    let body = command_body(opcode, key, value);
    let bytes = body + tail;
    let key_end = 11 + key.len() as int;
    let value_end = key_end + value.len() as int;
    let key_field = be_u32(length_field(key.len()));
    let value_field = be_u32(length_field(value.len()));
    let header = seq![27u8, 59u8, opcode] + key_field + value_field;
    lemma_be_u32_round_trip(length_field(key.len()));
    lemma_be_u32_round_trip(length_field(value.len()));
    assert(header.len() == 11);
    assert(body == header + key + value);
    assert(body.len() == value_end);
    assert forall|i: int| 0 <= i < 11 implies bytes[i] == header[i] by {
        assert(bytes[i] == body[i]);
        assert(body[i] == (header + key)[i]);
    }
    assert(header[0] == 27 && header[1] == 59 && header[2] == opcode);
    assert(header[3] == key_field[0] && header[4] == key_field[1] && header[5] == key_field[2]
        && header[6] == key_field[3]);
    assert(header[7] == value_field[0] && header[8] == value_field[1] && header[9]
        == value_field[2] && header[10] == value_field[3]);
    assert(u32_at(bytes, 3) == u32_at(key_field, 0));
    assert(u32_at(bytes, 7) == u32_at(value_field, 0));
    assert(bytes.subrange(11, key_end) =~= key);
    assert(bytes.subrange(key_end, value_end) =~= value);
    assert(bytes.take(value_end) =~= body);
    if tail.len() >= 2 {
        assert(bytes[value_end] == tail[0]);
        assert(bytes[value_end + 1] == tail[1]);
    }
}

/// Where each field lies in a response body that is followed by a trailer
/// and anything else.
proof fn lemma_response_layout(status: u8, text: Seq<u8>, tail: Seq<u8>)
    requires
        text.len() <= u32::MAX,
    ensures
        ({
            let body = response_body(status, text);
            let bytes = body + tail;
            let text_end = 7 + text.len() as int;
            &&& body.len() == text_end
            &&& head_matches(bytes)
            &&& bytes[2] == status
            &&& u32_at(bytes, 3) == text.len()
            &&& bytes.subrange(7, text_end) == text
            &&& bytes.take(text_end) == body
            &&& tail.len() >= 2 ==> u16_at(bytes, text_end) == u16_at(tail, 0)
        }),
{
    let body = response_body(status, text);
    let bytes = body + tail;
    let text_end = 7 + text.len() as int;
    let text_field = be_u32(length_field(text.len()));
    let header = seq![27u8, 59u8, status] + text_field;
    lemma_be_u32_round_trip(length_field(text.len()));
    assert(header.len() == 7);
    assert(body == header + text);
    assert(body.len() == text_end);
    assert forall|i: int| 0 <= i < 7 implies bytes[i] == header[i] by {
        assert(bytes[i] == body[i]);
    }
    assert(header[0] == 27 && header[1] == 59 && header[2] == status);
    assert(header[3] == text_field[0] && header[4] == text_field[1] && header[5] == text_field[2]
        && header[6] == text_field[3]);
    assert(u32_at(bytes, 3) == u32_at(text_field, 0));
    assert(bytes.subrange(7, text_end) =~= text);
    assert(bytes.take(text_end) =~= body);
    if tail.len() >= 2 {
        assert(bytes[text_end] == tail[0]);
        assert(bytes[text_end + 1] == tail[1]);
    }
}

/// Decoding undoes encoding: the frame of a command, with anything after
/// it, decodes to that command.
pub proof fn lemma_command_round_trip(c: Command, rest: Seq<u8>)
    requires
        c.fits(),
    ensures
        decode_command(command_frame(c) + rest) == Ok::<Command, KVSError>(c),
{
    let body = command_body(c.opcode(), encode_utf8(c.key()), encode_utf8(c.value()));
    let trailer = be_u16(crc16_arc(body));
    lemma_command_layout(c.opcode(), encode_utf8(c.key()), encode_utf8(c.value()), trailer + rest);
    lemma_be_u16_round_trip(crc16_arc(body));
    assert(command_frame(c) + rest =~= body + (trailer + rest));
    encode_utf8_valid_utf8(c.key());
    encode_utf8_decode_utf8(c.key());
    encode_utf8_valid_utf8(c.value());
    encode_utf8_decode_utf8(c.value());
}

/// Decoding undoes encoding: the frame of a response, with anything after
/// it, decodes to that response.
pub proof fn lemma_response_round_trip(r: Response, rest: Seq<u8>)
    requires
        r.fits(),
    ensures
        decode_response(response_frame(r) + rest) == Ok::<Response, KVSError>(r),
{
    let body = response_body(r.status(), encode_utf8(r.text()));
    let trailer = be_u16(crc16_arc(body));
    lemma_response_layout(r.status(), encode_utf8(r.text()), trailer + rest);
    lemma_be_u16_round_trip(crc16_arc(body));
    assert(response_frame(r) + rest =~= body + (trailer + rest));
    encode_utf8_valid_utf8(r.text());
    encode_utf8_decode_utf8(r.text());
}

/// A command frame cut short at any point fails to decode with an I/O
/// error.
pub proof fn lemma_truncated_command(c: Command, n: int)
    requires
        c.fits(),
        0 <= n < command_frame(c).len(),
    ensures
        decode_command(command_frame(c).take(n)) == Err::<Command, KVSError>(KVSError::IOError),
{
    let body = command_body(c.opcode(), encode_utf8(c.key()), encode_utf8(c.value()));
    lemma_command_layout(c.opcode(), encode_utf8(c.key()), encode_utf8(c.value()), be_u16(crc16_arc(body)));
}

/// A response frame cut short at any point fails to decode with an I/O
/// error.
pub proof fn lemma_truncated_response(r: Response, n: int)
    requires
        r.fits(),
        0 <= n < response_frame(r).len(),
    ensures
        decode_response(response_frame(r).take(n)) == Err::<Response, KVSError>(
            KVSError::IOError,
        ),
{
    let body = response_body(r.status(), encode_utf8(r.text()));
    lemma_response_layout(r.status(), encode_utf8(r.text()), be_u16(crc16_arc(body)));
}

/// The checksum guards the whole body. A complete command frame, whatever
/// its opcode and payloads, is refused with a checksum error exactly when
/// its trailer is not the checksum of its body.
pub proof fn lemma_command_checksum_guards(
    opcode: u8,
    key: Seq<u8>,
    value: Seq<u8>,
    trailer: Seq<u8>,
)
    requires
        key.len() <= u32::MAX,
        value.len() <= u32::MAX,
        trailer.len() == 2,
    ensures
        decode_command(command_body(opcode, key, value) + trailer) == Err::<Command, KVSError>(
            KVSError::ProtocolChecksumMismatch,
        ) <==> trailer != be_u16(crc16_arc(command_body(opcode, key, value))),
{
    let body = command_body(opcode, key, value);
    lemma_command_layout(opcode, key, value, trailer);
    lemma_be_u16_round_trip(crc16_arc(body));
    if u16_at(trailer, 0) == crc16_arc(body) {
        assert(trailer =~= be_u16(crc16_arc(body)));
    }
}

/// The checksum guards the whole body of a response frame in the same way.
pub proof fn lemma_response_checksum_guards(status: u8, text: Seq<u8>, trailer: Seq<u8>)
    requires
        text.len() <= u32::MAX,
        trailer.len() == 2,
    ensures
        decode_response(response_body(status, text) + trailer) == Err::<Response, KVSError>(
            KVSError::ProtocolChecksumMismatch,
        ) <==> trailer != be_u16(crc16_arc(response_body(status, text))),
{
    let body = response_body(status, text);
    lemma_response_layout(status, text, trailer);
    lemma_be_u16_round_trip(crc16_arc(body));
    if u16_at(trailer, 0) == crc16_arc(body) {
        assert(trailer =~= be_u16(crc16_arc(body)));
    }
}

/// A change of the payloads under an unchanged trailer is caught exactly
/// when it changes the checksum: the frame of a command in which the key
/// and the value were replaced by bytes of the same lengths is refused with
/// a checksum error if and only if the checksums of the two bodies differ.
pub proof fn lemma_changed_payload_is_caught(
    c: Command,
    key: Seq<u8>,
    value: Seq<u8>,
)
    requires
        c.fits(),
        key.len() == encode_utf8(c.key()).len(),
        value.len() == encode_utf8(c.value()).len(),
    ensures
        ({
            let body = command_body(c.opcode(), encode_utf8(c.key()), encode_utf8(c.value()));
            let changed = command_body(c.opcode(), key, value);
            decode_command(changed + be_u16(crc16_arc(body))) == Err::<Command, KVSError>(
                KVSError::ProtocolChecksumMismatch,
            ) <==> crc16_arc(changed) != crc16_arc(body)
        }),
{
    let body = command_body(c.opcode(), encode_utf8(c.key()), encode_utf8(c.value()));
    let changed = command_body(c.opcode(), key, value);
    lemma_command_checksum_guards(c.opcode(), key, value, be_u16(crc16_arc(body)));
    lemma_be_u16_round_trip(crc16_arc(body));
    lemma_be_u16_round_trip(crc16_arc(changed));
}

/// The count of missing bytes and the decoder agree: bytes are missing
/// exactly where decoding fails with an I/O error, and the count is an error
/// exactly where decoding fails on the head.
pub proof fn lemma_command_missing_agrees(bytes: Seq<u8>)
    ensures
        (command_missing(bytes) matches Ok(n) && n > 0) <==> decode_command(bytes) == Err::<
            Command,
            KVSError,
        >(KVSError::IOError),
        command_missing(bytes) is Err <==> decode_command(bytes) == Err::<Command, KVSError>(
            KVSError::ProtocolHeadMismatch,
        ),
{
}

/// The count of missing bytes and the decoder agree for responses too.
pub proof fn lemma_response_missing_agrees(bytes: Seq<u8>)
    ensures
        (response_missing(bytes) matches Ok(n) && n > 0) <==> decode_response(bytes) == Err::<
            Response,
            KVSError,
        >(KVSError::IOError),
        response_missing(bytes) is Err <==> decode_response(bytes) == Err::<Response, KVSError>(
            KVSError::ProtocolHeadMismatch,
        ),
{
}

} // verus!
