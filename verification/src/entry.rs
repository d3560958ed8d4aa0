//! One HAProxy HTTP log line, taken apart into its fields.

use vstd::prelude::*;
use vstd::string::{StringExecFns, StringSliceAdditionalSpecFns};
use vstd::utf8::valid_utf8;

use crate::grammar::{
    capture_blocks, capture_slot, delimiter, fixed_fields, literal_after, parse_line, piece,
    LogEntryView, CAPTURE_SLOTS, CLOSE_BRACE, CLOSE_BRACKET, COLON, FIXED_FIELDS, OPEN_BRACE,
    OPEN_BRACKET, PIPE, QUOTE, SLASH, SPACE,
};
use crate::number::number_up_to;
use crate::slicer::{nth_piece, nth_token, SliceError, Slicer};

verus! {

/// `core::str::Utf8Error`, handed on as it comes. Nothing is said of what
/// it holds.
#[verifier::external_type_specification]
#[verifier::external_body]
pub struct ExUtf8Error(core::str::Utf8Error);

/// `core::num::ParseIntError`, handed on as it comes. Nothing is said of
/// what it holds.
#[verifier::external_type_specification]
#[verifier::external_body]
pub struct ExParseIntError(core::num::ParseIntError);

/// Why a line, or one of its fields, could not be read.
#[derive(Debug)]
pub enum Error {
    /// The line does not follow the grammar.
    SliceError(SliceError),
    /// A field that was asked for as text is not UTF-8.
    Utf8Error(core::str::Utf8Error),
    /// A field that was asked for as a number is not one.
    IntError(core::num::ParseIntError),
}

impl Error {
    /// Describes the error in words: what kind of error it is, and then
    /// what the error it wraps says of itself when it is displayed.
    pub fn message(&self) -> (r: String)
        ensures
            match self {
                Error::SliceError(e) => r@ == "could not parse log entry: "@ + e.message_text(),
                Error::Utf8Error(e) => exists|cause: String|
                    {
                        &&& vstd::string::to_string_from_display_ensures::<core::str::Utf8Error>(
                            e,
                            cause,
                        )
                        &&& r@ == "invalid utf8: "@ + cause@
                    },
                Error::IntError(e) => exists|cause: String|
                    {
                        &&& vstd::string::to_string_from_display_ensures::<
                            core::num::ParseIntError,
                        >(e, cause)
                        &&& r@ == "could not decode integer: "@ + cause@
                    },
            },
    {
        match self {
            Error::SliceError(e) => {
                let mut text = String::from_str("could not parse log entry: ");
                let cause = e.message();
                text.append(cause.as_str());
                text
            },
            Error::Utf8Error(e) => {
                let mut text = String::from_str("invalid utf8: ");
                let cause = e.to_string();
                text.append(cause.as_str());
                text
            },
            Error::IntError(e) => {
                let mut text = String::from_str("could not decode integer: ");
                let cause = e.to_string();
                text.append(cause.as_str());
                text
            },
        }
    }
}

impl From<SliceError> for Error {
    fn from(err: SliceError) -> (r: Error) {
        Error::SliceError(err)
    }
}

impl vstd::std_specs::convert::FromSpecImpl<SliceError> for Error {
    open spec fn obeys_from_spec() -> bool {
        true
    }

    open spec fn from_spec(err: SliceError) -> Error {
        Error::SliceError(err)
    }
}

impl From<core::str::Utf8Error> for Error {
    fn from(err: core::str::Utf8Error) -> (r: Error) {
        Error::Utf8Error(err)
    }
}

impl vstd::std_specs::convert::FromSpecImpl<core::str::Utf8Error> for Error {
    open spec fn obeys_from_spec() -> bool {
        true
    }

    open spec fn from_spec(err: core::str::Utf8Error) -> Error {
        Error::Utf8Error(err)
    }
}

impl From<core::num::ParseIntError> for Error {
    fn from(err: core::num::ParseIntError) -> (r: Error) {
        Error::IntError(err)
    }
}

impl vstd::std_specs::convert::FromSpecImpl<core::num::ParseIntError> for Error {
    open spec fn obeys_from_spec() -> bool {
        true
    }

    open spec fn from_spec(err: core::num::ParseIntError) -> Error {
        Error::IntError(err)
    }
}

/// The fields of one log line. Each is a slice of the line it was parsed from.
pub struct LogEntry<'a> {
    pub process_name: &'a [u8],
    pub pid: &'a [u8],
    pub client_ip: &'a [u8],
    pub client_port: &'a [u8],
    pub accept_date: &'a [u8],
    pub frontend_name: &'a [u8],
    pub backend_name: &'a [u8],
    pub server_name: &'a [u8],
    pub request_time: &'a [u8],
    pub queue_time: &'a [u8],
    pub connect_time: &'a [u8],
    pub response_time: &'a [u8],
    pub total_time: &'a [u8],
    pub status_code: &'a [u8],
    pub bytes_read: &'a [u8],
    pub captured_request_cookie: &'a [u8],
    pub captured_response_cookie: &'a [u8],
    pub termination_state: &'a [u8],
    pub active_connections: &'a [u8],
    pub frontend_connections: &'a [u8],
    pub backend_connections: &'a [u8],
    pub server_connections: &'a [u8],
    pub retried_connections: &'a [u8],
    pub server_queue: &'a [u8],
    pub backend_queue: &'a [u8],
    pub captures: [&'a [u8]; 2],
    pub http_request: &'a [u8],
}

impl<'a> View for LogEntry<'a> {
    type V = LogEntryView;

    open spec fn view(&self) -> LogEntryView {
        LogEntryView {
            process_name: self.process_name@,
            pid: self.pid@,
            client_ip: self.client_ip@,
            client_port: self.client_port@,
            accept_date: self.accept_date@,
            frontend_name: self.frontend_name@,
            backend_name: self.backend_name@,
            server_name: self.server_name@,
            request_time: self.request_time@,
            queue_time: self.queue_time@,
            connect_time: self.connect_time@,
            response_time: self.response_time@,
            total_time: self.total_time@,
            status_code: self.status_code@,
            bytes_read: self.bytes_read@,
            captured_request_cookie: self.captured_request_cookie@,
            captured_response_cookie: self.captured_response_cookie@,
            termination_state: self.termination_state@,
            active_connections: self.active_connections@,
            frontend_connections: self.frontend_connections@,
            backend_connections: self.backend_connections@,
            server_connections: self.server_connections@,
            retried_connections: self.retried_connections@,
            server_queue: self.server_queue@,
            backend_queue: self.backend_queue@,
            captures: seq![self.captures[0]@, self.captures[1]@],
            http_request: self.http_request@,
        }
    }
}

/// `core::str::from_utf8`. It succeeds on well-formed UTF-8 and on nothing
/// else, and the text it returns is made of the bytes it was given.
#[verifier::external_body]
fn utf8_text<'a>(bytes: &'a [u8]) -> (r: Result<&'a str, core::str::Utf8Error>)
    ensures
        r is Ok <==> valid_utf8(bytes@),
        r matches Ok(text) ==> text.spec_bytes() == bytes@,
{
    core::str::from_utf8(bytes)
}

/// `str::parse` for `u64`. It accepts an optional `+` followed by one or
/// more decimal digits whose value fits in a `u64`, and returns that value;
/// anything else is an error.
#[verifier::external_body]
fn parse_u64(text: &str) -> (r: Result<u64, core::num::ParseIntError>)
    ensures
        match r {
            Ok(n) => number_up_to(text.spec_bytes(), u64::MAX as nat) == Some(n as nat),
            Err(_) => number_up_to(text.spec_bytes(), u64::MAX as nat) is None,
        },
{
    text.parse::<u64>()
}

/// Moves the cursor past `literal`, or says that it is not there.
fn skip<'a>(slicer: &mut Slicer<'a>, literal: &[u8]) -> (r: Result<(), Error>)
    ensures
        match r {
            Ok(_) => {
                &&& literal@.is_prefix_of(old(slicer)@)
                &&& final(slicer)@ == old(slicer)@.skip(literal@.len() as int)
            },
            Err(e) => {
                &&& e matches Error::SliceError(cause)
                &&& cause == SliceError::UnexpectedTokens
                &&& !literal@.is_prefix_of(old(slicer)@)
                &&& final(slicer)@ == old(slicer)@
            },
        },
{
    match slicer.discard(literal) {
        Ok(()) => Ok(()),
        Err(e) => Err(Error::SliceError(e)),
    }
}

/// Reads one capture block, if the cursor stands at the `{` of one.
fn capture_block<'a>(slicer: &mut Slicer<'a>) -> (r: Result<Option<&'a [u8]>, Error>)
    ensures
        match r {
            Ok(Some(block)) => {
                &&& seq![OPEN_BRACE].is_prefix_of(old(slicer)@)
                &&& piece(old(slicer)@.skip(1), CLOSE_BRACE, seq![SPACE]) == Ok::<_, SliceError>(
                    (block@, final(slicer)@),
                )
            },
            Ok(None) => {
                &&& !seq![OPEN_BRACE].is_prefix_of(old(slicer)@)
                &&& final(slicer)@ == old(slicer)@
            },
            Err(e) => {
                &&& e matches Error::SliceError(cause)
                &&& seq![OPEN_BRACE].is_prefix_of(old(slicer)@)
                &&& piece(old(slicer)@.skip(1), CLOSE_BRACE, seq![SPACE]) == Err::<
                    (Seq<u8>, Seq<u8>),
                    _,
                >(cause)
            },
        },
{
    let open: &[u8] = &[OPEN_BRACE];
    let space: &[u8] = &[SPACE];
    assert(open@ =~= seq![OPEN_BRACE]);
    assert(space@ =~= seq![SPACE]);
    if slicer.discard(open).is_ok() {
        let block = match slicer.slice_to(CLOSE_BRACE) {
            Ok(block) => block,
            Err(e) => {
                return Err(Error::SliceError(e));
            },
        };
        match slicer.discard(space) {
            Ok(()) => Ok(Some(block)),
            Err(e) => Err(Error::SliceError(e)),
        }
    } else {
        Ok(None)
    }
}

/// A cursor on a line together with what has been read of its fixed fields.
struct Reader<'a> {
    slicer: Slicer<'a>,
    line: Ghost<Seq<u8>>,
    found: Ghost<Seq<Seq<u8>>>,
}

impl<'a> Reader<'a> {
    /// The fields found so far are the first fixed fields of the line, and
    /// the cursor stands behind them.
    spec fn inv(&self) -> bool {
        &&& self.found@.len() <= FIXED_FIELDS
        &&& fixed_fields(self.line@, 0, Seq::empty()) == fixed_fields(
            self.slicer@,
            self.found@.len() as int,
            self.found@,
        )
    }

    fn new(line: &'a [u8]) -> (reader: Reader<'a>)
        ensures
            reader.inv(),
            reader.line@ == line@,
            reader.found@ == Seq::<Seq<u8>>::empty(),
    {
        Reader { slicer: Slicer::new(line), line: Ghost(line@), found: Ghost(Seq::empty()) }
    }

    /// Reads the next fixed field: the bytes up to `delim`, then `literal`.
    fn field(&mut self, delim: u8, literal: &[u8]) -> (r: Result<&'a [u8], Error>)
        requires
            old(self).inv(),
            old(self).found@.len() < FIXED_FIELDS,
            delim == delimiter(old(self).found@.len() as int),
            literal@ =~= literal_after(old(self).found@.len() as int),
        ensures
            final(self).line == old(self).line,
            match r {
                Ok(field) => {
                    &&& final(self).inv()
                    &&& final(self).found@ == old(self).found@.push(field@)
                },
                Err(e) => {
                    &&& e matches Error::SliceError(cause)
                    &&& fixed_fields(old(self).line@, 0, Seq::empty()) == Err::<
                        (Seq<Seq<u8>>, Seq<u8>),
                        _,
                    >(cause)
                },
            },
    {
        let field = match self.slicer.slice_to(delim) {
            Ok(field) => field,
            Err(e) => {
                return Err(Error::SliceError(e));
            },
        };
        match self.slicer.discard(literal) {
            Ok(()) => {
                proof {
                    self.found@ = self.found@.push(field@);
                }
                Ok(field)
            },
            Err(e) => Err(Error::SliceError(e)),
        }
    }
}

impl<'a> LogEntry<'a> {
    /// Parses one log line. The result is the entry that `parse_line` gives
    /// for the line, or the error on which `parse_line` stops.
    #[verifier::loop_isolation(false)]
    pub fn from_bytes(buf: &[u8]) -> (r: Result<LogEntry, Error>)
        ensures
            match r {
                Ok(entry) => parse_line(buf@) == Ok::<_, SliceError>(entry@),
                Err(e) => {
                    &&& e matches Error::SliceError(cause)
                    &&& parse_line(buf@) == Err::<LogEntryView, _>(cause)
                },
            },
    {
        let nothing: &[u8] = &[];
        let mut reader = Reader::new(buf);

        let process_name = reader.field(OPEN_BRACKET, nothing)?;
        let pid = reader.field(CLOSE_BRACKET, &[COLON, SPACE])?;

        let client_ip = reader.field(COLON, nothing)?;
        let client_port = reader.field(SPACE, &[OPEN_BRACKET])?;
        let accept_date = reader.field(CLOSE_BRACKET, &[SPACE])?;

        let frontend_name = reader.field(SPACE, nothing)?;
        let backend_name = reader.field(SLASH, nothing)?;
        let server_name = reader.field(SPACE, nothing)?;

        let time_request = reader.field(SLASH, nothing)?;
        let time_queue = reader.field(SLASH, nothing)?;
        let time_connect = reader.field(SLASH, nothing)?;
        let time_response = reader.field(SLASH, nothing)?;
        let time_total = reader.field(SPACE, nothing)?;

        let status_code = reader.field(SPACE, nothing)?;
        let bytes_read = reader.field(SPACE, nothing)?;

        let captured_request_cookie = reader.field(SPACE, nothing)?;
        let captured_response_cookie = reader.field(SPACE, nothing)?;

        let termination_state = reader.field(SPACE, nothing)?;

        let connections_active = reader.field(SLASH, nothing)?;
        let connections_frontend = reader.field(SLASH, nothing)?;
        let connections_backend = reader.field(SLASH, nothing)?;
        let connections_server = reader.field(SLASH, nothing)?;
        let connections_retried = reader.field(SPACE, nothing)?;

        let server_queue = reader.field(SLASH, nothing)?;
        let backend_queue = reader.field(SPACE, nothing)?;

        let ghost fields = reader.found@;
        let mut slicer = reader.slicer;
        let ghost after_fields = slicer@;
        assert(fixed_fields(buf@, 0, Seq::empty()) == Ok::<_, SliceError>((fields, after_fields)));

        // A line holds a block of captured request headers, one of captured
        // response headers, both or neither, as the proxy was configured.
        // The two look alike, so a single block may be either.
        let mut captures: [&[u8]; 2] = [nothing, nothing];
        let ghost mut blocks = Seq::<Seq<u8>>::empty();
        let mut i: usize = 0;
        while i < CAPTURE_SLOTS
            invariant
                i <= CAPTURE_SLOTS,
                blocks.len() == i,
                capture_blocks(after_fields, CAPTURE_SLOTS as nat, Seq::empty()) == capture_blocks(
                    slicer@,
                    (CAPTURE_SLOTS - i) as nat,
                    blocks,
                ),
                captures@[0]@ == capture_slot(blocks, 0),
                captures@[1]@ == capture_slot(blocks, 1),
            decreases CAPTURE_SLOTS - i,
        {
            match capture_block(&mut slicer)? {
                Some(block) => {
                    captures[i] = block;
                    proof {
                        blocks = blocks.push(block@);
                    }
                    i += 1;
                },
                None => {
                    break;
                },
            }
        }

        let literal: &[u8] = &[QUOTE];
        assert(literal@ =~= seq![QUOTE]);
        skip(&mut slicer, literal)?;
        let http_request = slicer.slice_to_or_remainder(QUOTE);

        Ok(
            LogEntry {
                process_name: process_name,
                pid: pid,
                client_ip: client_ip,
                client_port: client_port,
                accept_date: accept_date,
                frontend_name: frontend_name,
                backend_name: backend_name,
                server_name: server_name,
                request_time: time_request,
                queue_time: time_queue,
                connect_time: time_connect,
                response_time: time_response,
                total_time: time_total,
                status_code: status_code,
                bytes_read: bytes_read,
                captured_request_cookie: captured_request_cookie,
                captured_response_cookie: captured_response_cookie,
                termination_state: termination_state,
                active_connections: connections_active,
                frontend_connections: connections_frontend,
                backend_connections: connections_backend,
                server_connections: connections_server,
                retried_connections: connections_retried,
                server_queue: server_queue,
                backend_queue: backend_queue,
                captures: captures,
                http_request: http_request,
            },
        )
    }

    /// The name of the process that wrote the line, as text.
    pub fn process_name(&self) -> (r: Result<&'a str, Error>)
        ensures
            match r {
                Ok(name) => valid_utf8(self.process_name@) && name.spec_bytes() == self.process_name@,
                Err(e) => e is Utf8Error && !valid_utf8(self.process_name@),
            },
    {
        match utf8_text(self.process_name) {
            Ok(name) => Ok(name),
            Err(e) => Err(Error::Utf8Error(e)),
        }
    }

    /// The id of the process that wrote the line, as a number.
    pub fn pid(&self) -> (r: Result<u64, Error>)
        ensures
            match r {
                Ok(n) => number_up_to(self.pid@, u64::MAX as nat) == Some(n as nat),
                Err(Error::Utf8Error(_)) => !valid_utf8(self.pid@),
                Err(Error::IntError(_)) => valid_utf8(self.pid@) && number_up_to(
                    self.pid@,
                    u64::MAX as nat,
                ) is None,
                Err(Error::SliceError(_)) => false,
            },
    {
        let utf8_pid = match utf8_text(self.pid) {
            Ok(text) => text,
            Err(e) => {
                return Err(Error::Utf8Error(e));
            },
        };
        match parse_u64(utf8_pid) {
            Ok(n) => Ok(n),
            Err(e) => Err(Error::IntError(e)),
        }
    }

    /// The method of the request: the first word of the request line.
    pub fn http_method(&self) -> (r: Option<&'a [u8]>)
        ensures
            match r {
                Some(word) => nth_piece(self.http_request@, SPACE, 0) == Some(word@),
                None => nth_piece(self.http_request@, SPACE, 0) is None,
            },
    {
        nth_token(self.http_request, SPACE, 0)
    }

    /// The address that was requested: the second word of the request line.
    pub fn http_uri(&self) -> (r: Option<&'a [u8]>)
        ensures
            match r {
                Some(word) => nth_piece(self.http_request@, SPACE, 1) == Some(word@),
                None => nth_piece(self.http_request@, SPACE, 1) is None,
            },
    {
        nth_token(self.http_request, SPACE, 1)
    }

    /// The protocol version of the request: the third word of the request line.
    pub fn http_version(&self) -> (r: Option<&'a [u8]>)
        ensures
            match r {
                Some(word) => nth_piece(self.http_request@, SPACE, 2) == Some(word@),
                None => nth_piece(self.http_request@, SPACE, 2) is None,
            },
    {
        nth_token(self.http_request, SPACE, 2)
    }

    /// The `j`-th value of the `i`-th capture block; the values of a block
    /// are separated by `|`.
    pub fn captured_header(&self, i: usize, j: usize) -> (r: Option<&'a [u8]>)
        requires
            i < CAPTURE_SLOTS,
        ensures
            match r {
                Some(value) => nth_piece(self@.captures[i as int], PIPE, j as nat) == Some(value@),
                None => nth_piece(self@.captures[i as int], PIPE, j as nat) is None,
            },
    {
        nth_token(self.captures[i], PIPE, j)
    }
}

} // verus!
