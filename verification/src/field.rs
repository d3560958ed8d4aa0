//! The fields that can be selected from a log entry, and their names.

use vstd::prelude::*;
use vstd::string::{StringExecFns, StringSliceAdditionalSpecFns};
use vstd::utf8::{decode_utf8, encode_utf8_decode_utf8};

use crate::entry::LogEntry;
use crate::grammar::{
    capture_slot, fixed_fields, lemma_no_capture_block, lemma_one_capture_block,
    lemma_parse_of_line_text, line_text, parse_line, well_formed, LogEntryView, CAPTURE_SLOTS,
    CLOSE_BRACE, CLOSE_BRACKET, OPEN_BRACE, OPEN_BRACKET, PIPE, SPACE,
};
use crate::number::number_up_to;
use crate::slicer::{
    lemma_first_index, lemma_nth_piece, lemma_split_first, lemma_token_splits, nth_piece, split,
    Slicer,
};
use crate::substr::{text_before, text_from};

verus! {

/// `,`
pub const COMMA: u8 = 0x2c;

/// One selectable field of a log entry.
#[derive(Debug, Clone, Copy, PartialEq, Eq)]
pub enum Field {
    /// `process_name`
    ProcessName,
    /// `pid`
    ProcessId,
    /// `client_ip`
    ClientIp,
    /// `client_port`
    ClientPort,
    /// `accept_date`
    AcceptDate,
    /// `frontend_name`
    FrontendName,
    /// `backend_name`
    BackendName,
    /// `server_name`
    ServerName,
    /// `Tq`
    RequestTime,
    /// `Tw`
    QueueTime,
    /// `Tc`
    ConnectTime,
    /// `Tr`
    ResponseTime,
    /// `Tt`
    TotalTime,
    /// `status_code`
    StatusCode,
    /// `bytes_read`
    BytesRead,
    /// `captured_request_cookie`
    CapturedRequestCookie,
    /// `captured_response_cookie`
    CapturedResponseCookie,
    /// `termination_state`
    TerminationState,
    /// `actconn`
    ActiveConnections,
    /// `feconn`
    FrontendConnections,
    /// `beconn`
    BackendConnections,
    /// `srv_conn`
    ServerConnections,
    /// `retries`
    RetriedConnections,
    /// `srv_queue`
    ServerQueue,
    /// `backend_queue`
    BackendQueue,
    /// `http_request`
    HttpRequest,
    /// `http_method`
    HttpMethod,
    /// `http_uri`
    HttpUri,
    /// `http_version`
    HttpVersion,
    /// `captured_header[i][j]`: the `j`-th value of the `i`-th capture block.
    CapturedHeader(usize, usize),
}

/// Why a name does not select a field.
#[derive(Debug, PartialEq, Eq)]
pub enum FieldError {
    /// The name is none of the known ones and does not begin with
    /// `captured_header[`. Holds the name.
    UnknownField(String),
    /// The name begins with `captured_header[` and does not end with `]`.
    ExpectedFinalBracket,
    /// An index of `captured_header` is not a number that fits in `usize`.
    /// Holds what reading the index as a number gave.
    InvalidIndex(core::num::ParseIntError),
    /// `captured_header` does not have exactly two indices.
    WrongIndexCount,
    /// The first index of `captured_header` is neither 0 nor 1.
    FirstIndexOutOfRange,
}

/// Why a name does not select a field, as far as the name says it: the kind
/// of the error, and the name itself where it is unknown. What reading an
/// index gave is a value of the standard library of which nothing is known
/// but how it displays itself, so it is not part of this.
pub enum FieldErrorView {
    /// The name is unknown; holds the name.
    UnknownField(Seq<char>),
    /// The final `]` is missing.
    ExpectedFinalBracket,
    /// An index is not a number that fits in `usize`.
    InvalidIndex,
    /// There are not exactly two indices.
    WrongIndexCount,
    /// The first index is neither 0 nor 1.
    FirstIndexOutOfRange,
}

impl View for FieldError {
    type V = FieldErrorView;

    open spec fn view(&self) -> FieldErrorView {
        match self {
            FieldError::UnknownField(name) => FieldErrorView::UnknownField(name@),
            FieldError::ExpectedFinalBracket => FieldErrorView::ExpectedFinalBracket,
            FieldError::InvalidIndex(_) => FieldErrorView::InvalidIndex,
            FieldError::WrongIndexCount => FieldErrorView::WrongIndexCount,
            FieldError::FirstIndexOutOfRange => FieldErrorView::FirstIndexOutOfRange,
        }
    }
}

impl FieldError {
    /// Describes the error in words. An unknown name is given in quotes,
    /// and an index that is no number is followed by what reading it gave,
    /// as that error displays itself.
    pub fn message(&self) -> (r: String)
        ensures
            match self {
                FieldError::UnknownField(name) => r@ == "unknown field '"@ + name@ + "'"@,
                FieldError::ExpectedFinalBracket => r@ == "captured_header: expected final `]`"@,
                FieldError::InvalidIndex(e) => exists|cause: String|
                    {
                        &&& vstd::string::to_string_from_display_ensures::<
                            core::num::ParseIntError,
                        >(e, cause)
                        &&& r@ == "captured_header: could not parse index: "@ + cause@
                    },
                FieldError::WrongIndexCount => r@ == "captured_header: not enough indices"@,
                FieldError::FirstIndexOutOfRange => r@
                    == "captured_header: the first index must be 0 or 1"@,
            },
    {
        match self {
            FieldError::UnknownField(name) => {
                let mut text = String::from_str("unknown field '");
                text.append(name.as_str());
                text.append("'");
                text
            },
            FieldError::ExpectedFinalBracket => String::from_str(
                "captured_header: expected final `]`",
            ),
            FieldError::InvalidIndex(e) => {
                let mut text = String::from_str("captured_header: could not parse index: ");
                let cause = e.to_string();
                text.append(cause.as_str());
                text
            },
            FieldError::WrongIndexCount => String::from_str("captured_header: not enough indices"),
            FieldError::FirstIndexOutOfRange => String::from_str(
                "captured_header: the first index must be 0 or 1",
            ),
        }
    }
}

/// The bytes of a name that is written as text.
#[verifier::opaque]
pub open spec fn text(name: &str) -> Seq<u8> {
    name.spec_bytes()
}

/// The bytes of a name are the bytes of its text.
pub proof fn lemma_text(name: &str)
    ensures
        text(name) == name.spec_bytes(),
        decode_utf8(text(name)) == name@,
{
    reveal(text);
    encode_utf8_decode_utf8(name@);
}

/// The field that goes by the plain name `name`, if there is one.
pub open spec fn plain_field(name: Seq<u8>) -> Option<Field> {
    if name == text("process_name") {
        Some(Field::ProcessName)
    } else if name == text("pid") {
        Some(Field::ProcessId)
    } else if name == text("client_ip") {
        Some(Field::ClientIp)
    } else if name == text("client_port") {
        Some(Field::ClientPort)
    } else if name == text("accept_date") {
        Some(Field::AcceptDate)
    } else if name == text("frontend_name") {
        Some(Field::FrontendName)
    } else if name == text("backend_name") {
        Some(Field::BackendName)
    } else if name == text("server_name") {
        Some(Field::ServerName)
    } else if name == text("Tq") {
        Some(Field::RequestTime)
    } else if name == text("Tw") {
        Some(Field::QueueTime)
    } else if name == text("Tc") {
        Some(Field::ConnectTime)
    } else if name == text("Tr") {
        Some(Field::ResponseTime)
    } else if name == text("Tt") {
        Some(Field::TotalTime)
    } else if name == text("status_code") {
        Some(Field::StatusCode)
    } else if name == text("bytes_read") {
        Some(Field::BytesRead)
    } else if name == text("captured_request_cookie") {
        Some(Field::CapturedRequestCookie)
    } else if name == text("captured_response_cookie") {
        Some(Field::CapturedResponseCookie)
    } else if name == text("termination_state") {
        Some(Field::TerminationState)
    } else if name == text("actconn") {
        Some(Field::ActiveConnections)
    } else if name == text("feconn") {
        Some(Field::FrontendConnections)
    } else if name == text("beconn") {
        Some(Field::BackendConnections)
    } else if name == text("srv_conn") {
        Some(Field::ServerConnections)
    } else if name == text("retries") {
        Some(Field::RetriedConnections)
    } else if name == text("srv_queue") {
        Some(Field::ServerQueue)
    } else if name == text("backend_queue") {
        Some(Field::BackendQueue)
    } else if name == text("http_request") {
        Some(Field::HttpRequest)
    } else if name == text("http_method") {
        Some(Field::HttpMethod)
    } else if name == text("http_uri") {
        Some(Field::HttpUri)
    } else if name == text("http_version") {
        Some(Field::HttpVersion)
    } else {
        None
    }
}

/// Index at which the first `][` of `s` begins, or `s.len()` if there is none.
pub open spec fn first_gap(s: Seq<u8>) -> int
    decreases s.len(),
{
    if s.len() < 2 {
        s.len() as int
    } else if s[0] == CLOSE_BRACKET && s[1] == OPEN_BRACKET {
        0
    } else {
        1 + first_gap(s.drop_first())
    }
}

/// The texts of `s` between occurrences of `][`, in order, found from the left.
pub open spec fn index_texts(s: Seq<u8>) -> Seq<Seq<u8>>
    decreases s.len(),
{
    if first_gap(s) < s.len() {
        proof {
            lemma_first_gap(s);
        }
        seq![s.take(first_gap(s))] + index_texts(s.skip(first_gap(s) + 2))
    } else {
        seq![s]
    }
}

/// The index that `text` denotes, if it is a number that fits in `usize`.
pub open spec fn index_value(text: Seq<u8>) -> Option<nat> {
    number_up_to(text, usize::MAX as nat)
}

/// What the name of the form `captured_header[i][j]` selects. Between the
/// opening `captured_header[` and the closing `]` stand the indices, with
/// `][` between one and the next. A name that does not begin in this way is
/// unknown, and the error holds it.
pub open spec fn decode_indexed(name: Seq<u8>) -> Result<Field, FieldErrorView> {
    let prefix = text("captured_header[");
    if !prefix.is_prefix_of(name) {
        Err(FieldErrorView::UnknownField(decode_utf8(name)))
    } else if name.last() != CLOSE_BRACKET {
        Err(FieldErrorView::ExpectedFinalBracket)
    } else {
        let texts = index_texts(name.subrange(prefix.len() as int, name.len() - 1));
        if exists|k: int| 0 <= k < texts.len() && index_value(#[trigger] texts[k]) is None {
            Err(FieldErrorView::InvalidIndex)
        } else if texts.len() != 2 {
            Err(FieldErrorView::WrongIndexCount)
        } else if index_value(texts[0])->0 > 1 {
            Err(FieldErrorView::FirstIndexOutOfRange)
        } else {
            Ok(
                Field::CapturedHeader(
                    index_value(texts[0])->0 as usize,
                    index_value(texts[1])->0 as usize,
                ),
            )
        }
    }
}

/// What `name` selects: the field of that plain name, or else what the
/// indexed form selects.
pub open spec fn decode_name(name: Seq<u8>) -> Result<Field, FieldErrorView> {
    match plain_field(name) {
        Some(field) => Ok(field),
        None => decode_indexed(name),
    }
}

/// Whether `r` is what `expected` says: the same field, or an error of
/// which `expected` gives the view.
pub open spec fn decoded_as(
    r: Result<Field, FieldError>,
    expected: Result<Field, FieldErrorView>,
) -> bool {
    match r {
        Ok(field) => expected == Ok::<_, FieldErrorView>(field),
        Err(e) => expected == Err::<Field, _>(e@),
    }
}

/// `first_gap` is in range; where it is below the length, a `][` begins at
/// it; and no `][` begins before it.
pub proof fn lemma_first_gap(s: Seq<u8>)
    ensures
        0 <= first_gap(s) <= s.len(),
        first_gap(s) < s.len() ==> first_gap(s) + 2 <= s.len() && s[first_gap(s)] == CLOSE_BRACKET
            && s[first_gap(s) + 1] == OPEN_BRACKET,
        forall|j: int|
            0 <= j < first_gap(s) && j + 1 < s.len() ==> !(s[j] == CLOSE_BRACKET && #[trigger] s[j + 1]
                == OPEN_BRACKET),
    decreases s.len(),
{
    if s.len() < 2 {
    } else if s[0] == CLOSE_BRACKET && s[1] == OPEN_BRACKET {
    } else {
        let rest = s.drop_first();
        lemma_first_gap(rest);
        assert forall|j: int| 0 <= j < first_gap(s) && j + 1 < s.len() implies !(s[j]
            == CLOSE_BRACKET && #[trigger] s[j + 1] == OPEN_BRACKET) by {
            if j > 0 {
                assert(s[j] == rest[j - 1]);
                assert(s[j + 1] == rest[(j - 1) + 1]);
            }
        }
    }
}

/// An index at which a `][` begins, with none beginning before it, is the
/// first gap; so is the length, where no `][` begins anywhere.
pub proof fn lemma_first_gap_at(s: Seq<u8>, i: int)
    requires
        0 <= i <= s.len(),
        forall|j: int|
            0 <= j < i && j + 1 < s.len() ==> !(s[j] == CLOSE_BRACKET && #[trigger] s[j + 1]
                == OPEN_BRACKET),
        i < s.len() ==> i + 1 < s.len() && s[i] == CLOSE_BRACKET && s[i + 1] == OPEN_BRACKET,
    ensures
        first_gap(s) == i,
{
    lemma_first_gap(s);
    let g = first_gap(s);
    if g < i {
        assert(s[g + 1] == OPEN_BRACKET);
    } else if i < g {
        assert(s[i + 1] == OPEN_BRACKET);
    }
}

/// Whether `s` begins with `prefix`.
fn begins_with(s: &[u8], prefix: &[u8]) -> (r: bool)
    ensures
        r == prefix@.is_prefix_of(s@),
{
    let n = prefix.len();
    if s.len() < n {
        return false;
    }
    for i in 0..n
        invariant
            n == prefix@.len(),
            n <= s@.len(),
            forall|j: int| 0 <= j < i ==> s@[j] == prefix@[j],
    {
        if s[i] != prefix[i] {
            return false;
        }
    }
    assert(s@.subrange(0, n as int) =~= prefix@);
    true
}

/// Whether `a` and `b` hold the same bytes.
fn same_bytes(a: &[u8], b: &[u8]) -> (r: bool)
    ensures
        r == (a@ == b@),
{
    if a.len() != b.len() {
        return false;
    }
    let r = begins_with(a, b);
    assert(a@.subrange(0, a@.len() as int) =~= a@);
    r
}

/// Finds where the first `][` of `s` begins.
fn find_gap(s: &[u8]) -> (g: usize)
    ensures
        g == first_gap(s@),
{
    let len = s.len();
    if len < 2 {
        proof {
            lemma_first_gap_at(s@, len as int);
        }
        return len;
    }
    let mut i: usize = 0;
    while i < len - 1
        invariant
            i < len,
            len == s@.len(),
            forall|j: int|
                0 <= j < i && j + 1 < len ==> !(s@[j] == CLOSE_BRACKET && #[trigger] s@[j + 1]
                    == OPEN_BRACKET),
        decreases len - i,
    {
        if s[i] == CLOSE_BRACKET && s[i + 1] == OPEN_BRACKET {
            proof {
                lemma_first_gap_at(s@, i as int);
            }
            return i;
        }
        i += 1;
    }
    proof {
        lemma_first_gap_at(s@, len as int);
    }
    len
}

/// Looks `name` up among the plain names.
fn plain(name: &[u8]) -> (r: Option<Field>)
    ensures
        r == plain_field(name@),
{
    reveal(text);
    if same_bytes(name, "process_name".as_bytes()) {
        Some(Field::ProcessName)
    } else if same_bytes(name, "pid".as_bytes()) {
        Some(Field::ProcessId)
    } else if same_bytes(name, "client_ip".as_bytes()) {
        Some(Field::ClientIp)
    } else if same_bytes(name, "client_port".as_bytes()) {
        Some(Field::ClientPort)
    } else if same_bytes(name, "accept_date".as_bytes()) {
        Some(Field::AcceptDate)
    } else if same_bytes(name, "frontend_name".as_bytes()) {
        Some(Field::FrontendName)
    } else if same_bytes(name, "backend_name".as_bytes()) {
        Some(Field::BackendName)
    } else if same_bytes(name, "server_name".as_bytes()) {
        Some(Field::ServerName)
    } else if same_bytes(name, "Tq".as_bytes()) {
        Some(Field::RequestTime)
    } else if same_bytes(name, "Tw".as_bytes()) {
        Some(Field::QueueTime)
    } else if same_bytes(name, "Tc".as_bytes()) {
        Some(Field::ConnectTime)
    } else if same_bytes(name, "Tr".as_bytes()) {
        Some(Field::ResponseTime)
    } else if same_bytes(name, "Tt".as_bytes()) {
        Some(Field::TotalTime)
    } else if same_bytes(name, "status_code".as_bytes()) {
        Some(Field::StatusCode)
    } else if same_bytes(name, "bytes_read".as_bytes()) {
        Some(Field::BytesRead)
    } else if same_bytes(name, "captured_request_cookie".as_bytes()) {
        Some(Field::CapturedRequestCookie)
    } else if same_bytes(name, "captured_response_cookie".as_bytes()) {
        Some(Field::CapturedResponseCookie)
    } else if same_bytes(name, "termination_state".as_bytes()) {
        Some(Field::TerminationState)
    } else if same_bytes(name, "actconn".as_bytes()) {
        Some(Field::ActiveConnections)
    } else if same_bytes(name, "feconn".as_bytes()) {
        Some(Field::FrontendConnections)
    } else if same_bytes(name, "beconn".as_bytes()) {
        Some(Field::BackendConnections)
    } else if same_bytes(name, "srv_conn".as_bytes()) {
        Some(Field::ServerConnections)
    } else if same_bytes(name, "retries".as_bytes()) {
        Some(Field::RetriedConnections)
    } else if same_bytes(name, "srv_queue".as_bytes()) {
        Some(Field::ServerQueue)
    } else if same_bytes(name, "backend_queue".as_bytes()) {
        Some(Field::BackendQueue)
    } else if same_bytes(name, "http_request".as_bytes()) {
        Some(Field::HttpRequest)
    } else if same_bytes(name, "http_method".as_bytes()) {
        Some(Field::HttpMethod)
    } else if same_bytes(name, "http_uri".as_bytes()) {
        Some(Field::HttpUri)
    } else if same_bytes(name, "http_version".as_bytes()) {
        Some(Field::HttpVersion)
    } else {
        None
    }
}

/// `str::parse` for `usize`. It accepts an optional `+` followed by one or
/// more decimal digits whose value fits in a `usize`, and returns that
/// value; anything else is an error.
#[verifier::external_body]
fn parse_usize(digits: &str) -> (r: Result<usize, core::num::ParseIntError>)
    ensures
        match r {
            Ok(n) => number_up_to(digits.spec_bytes(), usize::MAX as nat) == Some(n as nat),
            Err(_) => number_up_to(digits.spec_bytes(), usize::MAX as nat) is None,
        },
{
    digits.parse::<usize>()
}

/// Reads the indices of a name that is not a plain one.
#[verifier::loop_isolation(false)]
fn indexed(field: &str) -> (r: Result<Field, FieldError>)
    ensures
        decoded_as(r, decode_indexed(text(field))),
        r matches Err(FieldError::UnknownField(name)) ==> name@ == field@,
{
    let name = field.as_bytes();
    let prefix = "captured_header[".as_bytes();
    proof {
        reveal(text);
        reveal_strlit("captured_header[");
        vstd::string::is_ascii_spec_bytes("captured_header[");
        assert(prefix@.len() == 16);
        assert(prefix@[15] == OPEN_BRACKET);
        encode_utf8_decode_utf8(field@);
    }
    if !begins_with(name, prefix) {
        return Err(FieldError::UnknownField(String::from_str(field)));
    }
    let len = name.len();
    assert(name@[15] == prefix@[15]);
    if name[len - 1] != CLOSE_BRACKET {
        return Err(FieldError::ExpectedFinalBracket);
    }
    let inner = text_before(text_from(field, prefix.len()), len - 1 - prefix.len());
    assert(inner.spec_bytes() =~= name@.subrange(16, len - 1));
    let ghost texts = index_texts(inner.spec_bytes());
    let ghost mut done = Seq::<Seq<u8>>::empty();
    let mut indices: Vec<usize> = Vec::new();
    let mut rest = inner;
    let mut more = true;
    while more
        invariant
            indices@.len() == done.len(),
            more ==> texts == done + index_texts(rest.spec_bytes()),
            !more ==> texts == done,
            forall|k: int|
                0 <= k < done.len() ==> index_value(#[trigger] done[k]) == Some(indices@[k] as nat),
        decreases rest.spec_bytes().len() + if more { 1nat } else { 0nat },
    {
        let left = rest.as_bytes();
        let gap = find_gap(left);
        proof {
            lemma_first_gap(left@);
        }
        let digits = text_before(rest, gap);
        assert(index_texts(left@)[0] == digits.spec_bytes());
        match parse_usize(digits) {
            Ok(index) => {
                indices.push(index);
            },
            Err(e) => {
                assert(texts[done.len() as int] == digits.spec_bytes());
                return Err(FieldError::InvalidIndex(e));
            },
        }
        if gap == left.len() {
            proof {
                done = done.push(digits.spec_bytes());
                assert(texts =~= done);
            }
            more = false;
        } else {
            proof {
                assert(texts =~= done.push(digits.spec_bytes()) + index_texts(
                    left@.skip(gap + 2),
                ));
                done = done.push(digits.spec_bytes());
            }
            rest = text_from(rest, gap + 2);
        }
    }
    if indices.len() != 2 {
        return Err(FieldError::WrongIndexCount);
    }
    if indices[0] > 1 {
        return Err(FieldError::FirstIndexOutOfRange);
    }
    Ok(Field::CapturedHeader(indices[0], indices[1]))
}

/// The bytes of `piece`, or none where there is no piece.
pub open spec fn piece_or_empty(piece: Option<Seq<u8>>) -> Seq<u8> {
    match piece {
        Some(bytes) => bytes,
        None => Seq::empty(),
    }
}

impl Field {
    /// Whether the field can be taken from an entry: a captured header
    /// names the first or the second capture block.
    pub open spec fn wf(self) -> bool {
        self matches Field::CapturedHeader(i, _) ==> i < CAPTURE_SLOTS
    }

    /// The bytes that the field selects from `entry`. A part of the request
    /// line, or a captured header, that is not there selects nothing.
    pub open spec fn content(self, entry: LogEntryView) -> Seq<u8> {
        match self {
            Field::ProcessName => entry.process_name,
            Field::ProcessId => entry.pid,
            Field::ClientIp => entry.client_ip,
            Field::ClientPort => entry.client_port,
            Field::AcceptDate => entry.accept_date,
            Field::FrontendName => entry.frontend_name,
            Field::BackendName => entry.backend_name,
            Field::ServerName => entry.server_name,
            Field::RequestTime => entry.request_time,
            Field::QueueTime => entry.queue_time,
            Field::ConnectTime => entry.connect_time,
            Field::ResponseTime => entry.response_time,
            Field::TotalTime => entry.total_time,
            Field::StatusCode => entry.status_code,
            Field::BytesRead => entry.bytes_read,
            Field::CapturedRequestCookie => entry.captured_request_cookie,
            Field::CapturedResponseCookie => entry.captured_response_cookie,
            Field::TerminationState => entry.termination_state,
            Field::ActiveConnections => entry.active_connections,
            Field::FrontendConnections => entry.frontend_connections,
            Field::BackendConnections => entry.backend_connections,
            Field::ServerConnections => entry.server_connections,
            Field::RetriedConnections => entry.retried_connections,
            Field::ServerQueue => entry.server_queue,
            Field::BackendQueue => entry.backend_queue,
            Field::HttpRequest => entry.http_request,
            Field::HttpMethod => piece_or_empty(nth_piece(entry.http_request, SPACE, 0)),
            Field::HttpUri => piece_or_empty(nth_piece(entry.http_request, SPACE, 1)),
            Field::HttpVersion => piece_or_empty(nth_piece(entry.http_request, SPACE, 2)),
            Field::CapturedHeader(i, j) => piece_or_empty(
                nth_piece(entry.captures[i as int], PIPE, j as nat),
            ),
        }
    }

    /// Finds the field that `field` names. Where the name is unknown, the
    /// error holds it.
    pub fn decode(field: &str) -> (r: Result<Field, FieldError>)
        ensures
            decoded_as(r, decode_name(text(field))),
            r matches Ok(decoded) ==> decoded.wf(),
            r matches Err(FieldError::UnknownField(name)) ==> name@ == field@,
    {
        proof {
            reveal(text);
        }
        match plain(field.as_bytes()) {
            Some(decoded) => Ok(decoded),
            None => indexed(field),
        }
    }

    /// Takes the bytes that the field selects out of `entry`.
    pub fn extract_content_from<'a>(&self, entry: &LogEntry<'a>) -> (r: &'a [u8])
        requires
            self.wf(),
        ensures
            r@ == self.content(entry@),
    {
        let nothing: &[u8] = &[];
        assert(nothing@ =~= Seq::<u8>::empty());
        match *self {
            Field::ProcessName => entry.process_name,
            Field::ProcessId => entry.pid,
            Field::ClientIp => entry.client_ip,
            Field::ClientPort => entry.client_port,
            Field::AcceptDate => entry.accept_date,
            Field::FrontendName => entry.frontend_name,
            Field::BackendName => entry.backend_name,
            Field::ServerName => entry.server_name,
            Field::RequestTime => entry.request_time,
            Field::QueueTime => entry.queue_time,
            Field::ConnectTime => entry.connect_time,
            Field::ResponseTime => entry.response_time,
            Field::TotalTime => entry.total_time,
            Field::StatusCode => entry.status_code,
            Field::BytesRead => entry.bytes_read,
            Field::CapturedRequestCookie => entry.captured_request_cookie,
            Field::CapturedResponseCookie => entry.captured_response_cookie,
            Field::TerminationState => entry.termination_state,
            Field::ActiveConnections => entry.active_connections,
            Field::FrontendConnections => entry.frontend_connections,
            Field::BackendConnections => entry.backend_connections,
            Field::ServerConnections => entry.server_connections,
            Field::RetriedConnections => entry.retried_connections,
            Field::ServerQueue => entry.server_queue,
            Field::BackendQueue => entry.backend_queue,
            Field::HttpRequest => entry.http_request,
            Field::HttpMethod => or_nothing(entry.http_method()),
            Field::HttpUri => or_nothing(entry.http_uri()),
            Field::HttpVersion => or_nothing(entry.http_version()),
            Field::CapturedHeader(i, j) => or_nothing(entry.captured_header(i, j)),
        }
    }
}

/// The piece that was found, or an empty slice.
fn or_nothing<'a>(piece: Option<&'a [u8]>) -> (r: &'a [u8])
    ensures
        r@ == match piece {
            Some(bytes) => bytes@,
            None => Seq::empty(),
        },
{
    match piece {
        Some(bytes) => bytes,
        None => {
            let nothing: &[u8] = &[];
            assert(nothing@ =~= Seq::<u8>::empty());
            nothing
        },
    }
}

/// The fields that the names select, in the order of the names, or the
/// error of the first name that selects none.
pub open spec fn decode_all(names: Seq<Seq<u8>>) -> Result<Seq<Field>, FieldErrorView>
    decreases names.len(),
{
    if names.len() == 0 {
        Ok(Seq::empty())
    } else {
        match decode_name(names[0]) {
            Err(e) => Err(e),
            Ok(field) => match decode_all(names.drop_first()) {
                Err(e) => Err(e),
                Ok(fields) => Ok(seq![field] + fields),
            },
        }
    }
}

/// What a list of names separated by commas selects. The empty list selects
/// no field at all.
pub open spec fn decode_list(names: Seq<u8>) -> Result<Seq<Field>, FieldErrorView> {
    if names.len() == 0 {
        Ok(Seq::empty())
    } else {
        decode_all(split(names, COMMA))
    }
}

/// `fields` followed by what `rest` holds, or the error of `rest`.
pub open spec fn after(fields: Seq<Field>, rest: Result<Seq<Field>, FieldErrorView>) -> Result<
    Seq<Field>,
    FieldErrorView,
> {
    match rest {
        Ok(more) => Ok(fields + more),
        Err(e) => Err(e),
    }
}

/// The contents of the fields in their order, with the delimiter between
/// one and the next.
pub open spec fn joined(fields: Seq<Field>, entry: LogEntryView, delimiter: Seq<u8>) -> Seq<u8>
    decreases fields.len(),
{
    if fields.len() == 0 {
        Seq::empty()
    } else if fields.len() == 1 {
        fields[0].content(entry)
    } else {
        joined(fields.drop_last(), entry, delimiter) + delimiter + fields.last().content(entry)
    }
}

/// Decoding a list of names that is not empty decodes its first name and
/// then the others.
pub proof fn lemma_decode_all_first(fields: Seq<Field>, names: Seq<Seq<u8>>)
    requires
        names.len() > 0,
    ensures
        match decode_name(names[0]) {
            Ok(field) => after(fields, decode_all(names)) == after(
                fields.push(field),
                decode_all(names.drop_first()),
            ),
            Err(e) => after(fields, decode_all(names)) == Err::<Seq<Field>, _>(e),
        },
        names.len() == 1 ==> decode_all(names.drop_first()) == Ok::<_, FieldErrorView>(
            Seq::<Field>::empty(),
        ),
{
    match decode_name(names[0]) {
        Ok(field) => {
            match decode_all(names.drop_first()) {
                Ok(more) => {
                    assert(fields + (seq![field] + more) =~= fields.push(field) + more);
                },
                Err(_) => {},
            }
        },
        Err(_) => {},
    }
}

/// An ordered selection of fields. A field may occur more than once.
pub struct Fields {
    vec: Vec<Field>,
}

impl View for Fields {
    type V = Seq<Field>;

    closed spec fn view(&self) -> Seq<Field> {
        self.vec@
    }
}

impl Fields {
    /// Every field of a selection can be taken from an entry.
    #[verifier::type_invariant]
    spec fn wf(&self) -> bool {
        forall|i: int| 0 <= i < self.vec@.len() ==> (#[trigger] self.vec@[i]).wf()
    }

    /// Reads a list of field names separated by commas. The error is that
    /// of the first name that selects no field.
    pub fn decode(field_names: &str) -> (r: Result<Fields, FieldError>)
        ensures
            match r {
                Ok(fields) => {
                    &&& decode_list(text(field_names)) == Ok::<_, FieldErrorView>(fields@)
                    &&& forall|k: int| 0 <= k < fields@.len() ==> (#[trigger] fields@[k]).wf()
                },
                Err(e) => decode_list(text(field_names)) == Err::<Seq<Field>, _>(e@),
            },
    {
        proof {
            lemma_text(field_names);
        }
        let mut fields: Vec<Field> = Vec::new();
        if field_names.as_bytes().len() != 0 {
            let mut rest: &str = field_names;
            let mut more = true;
            while more
                invariant
                    forall|i: int| 0 <= i < fields@.len() ==> (#[trigger] fields@[i]).wf(),
                    decode_list(text(field_names)) == if more {
                        after(fields@, decode_all(split(rest.spec_bytes(), COMMA)))
                    } else {
                        after(fields@, Ok(Seq::empty()))
                    },
                decreases rest.spec_bytes().len() + if more { 1nat } else { 0nat },
            {
                let left = rest.as_bytes();
                let total = left.len();
                proof {
                    lemma_first_index(left@, COMMA);
                    lemma_split_first(left@, COMMA);
                    lemma_decode_all_first(fields@, split(left@, COMMA));
                    if left@.contains(COMMA) {
                        lemma_token_splits(left@, COMMA);
                    }
                }
                let mut slicer = Slicer::new(left);
                let name = match slicer.slice_to(COMMA) {
                    Ok(piece) => {
                        let at = piece.len();
                        assert(at < total);
                        let name = text_before(rest, at);
                        rest = text_from(rest, at + 1);
                        name
                    },
                    Err(_) => {
                        more = false;
                        rest
                    },
                };
                proof {
                    lemma_text(name);
                }
                match Field::decode(name) {
                    Ok(field) => {
                        fields.push(field);
                    },
                    Err(e) => {
                        return Err(e);
                    },
                }
            }
        }
        assert(fields@ + Seq::<Field>::empty() =~= fields@);
        Ok(Fields { vec: fields })
    }

    /// The fields in their order. Each of them can be taken from an entry.
    pub fn iter(&self) -> (r: std::slice::Iter<'_, Field>)
        ensures
            vstd::std_specs::slice::into_iter_elts(r) == self@,
            forall|k: int| 0 <= k < self@.len() ==> (#[trigger] self@[k]).wf(),
    {
        proof {
            use_type_invariant(self);
        }
        self.vec.iter()
    }

    /// Appends to `out` the contents that the fields select from `entry`,
    /// with `delimiter` between one and the next.
    pub fn write_joined(&self, entry: &LogEntry, delimiter: &[u8], out: &mut Vec<u8>)
        ensures
            final(out)@ == old(out)@ + joined(self@, entry@, delimiter@),
    {
        proof {
            use_type_invariant(self);
        }
        let n = self.vec.len();
        for i in 0..n
            invariant
                n == self.vec@.len(),
                forall|k: int| 0 <= k < self.vec@.len() ==> (#[trigger] self.vec@[k]).wf(),
                out@ == old(out)@ + joined(self@.take(i as int), entry@, delimiter@),
        {
            let ghost before = out@;
            let ghost shorter = self@.take(i as int);
            let ghost longer = self@.take(i + 1);
            if i != 0 {
                out.extend_from_slice(delimiter);
            }
            let content = self.vec[i].extract_content_from(entry);
            out.extend_from_slice(content);
            proof {
                assert(longer.drop_last() =~= shorter);
                assert(longer.last() == self.vec@[i as int]);
                if i == 0 {
                    assert(out@ =~= before + content@);
                } else {
                    assert(out@ =~= before + delimiter@ + content@);
                }
                assert(out@ =~= old(out)@ + joined(longer, entry@, delimiter@));
            }
        }
        assert(self@.take(n as int) =~= self@);
    }
}

/// A captured header of an empty capture slot is empty, whichever value of
/// the block is asked for.
pub proof fn lemma_empty_capture_selects_nothing(entry: LogEntryView, i: usize, j: usize)
    requires
        entry.captures[i as int] == Seq::<u8>::empty(),
    ensures
        Field::CapturedHeader(i, j).content(entry) == Seq::<u8>::empty(),
{
    let block = entry.captures[i as int];
    lemma_nth_piece(block, PIPE, j as nat);
    assert(block.take(0) =~= Seq::<u8>::empty());
}

/// Of a line without capture blocks every captured header is empty: where
/// a line parses and no `{` stands behind its fixed fields, a captured
/// header of either slot selects nothing, whichever value is asked for.
pub proof fn lemma_no_capture_block_selects_nothing(line: Seq<u8>, i: usize, j: usize)
    requires
        parse_line(line) is Ok,
        fixed_fields(line, 0, Seq::empty()) matches Ok((_, rest)) && !seq![OPEN_BRACE].is_prefix_of(
            rest,
        ),
        i < CAPTURE_SLOTS,
    ensures
        Field::CapturedHeader(i, j).content(parse_line(line)->Ok_0) == Seq::<u8>::empty(),
{
    lemma_no_capture_block(line);
    lemma_empty_capture_selects_nothing(parse_line(line)->Ok_0, i, j);
}

/// Of a line with one capture block the captured headers of the first slot
/// are the values of that block, and those of the second slot are empty:
/// where a line parses and behind its fixed fields stand `{`, a block, `} `
/// and then no further `{`.
pub proof fn lemma_one_capture_block_selects_it(
    line: Seq<u8>,
    block: Seq<u8>,
    tail: Seq<u8>,
    j: usize,
)
    requires
        parse_line(line) is Ok,
        fixed_fields(line, 0, Seq::empty()) matches Ok((_, rest)) && rest == seq![OPEN_BRACE]
            + block + seq![CLOSE_BRACE, SPACE] + tail,
        !block.contains(CLOSE_BRACE),
        !seq![OPEN_BRACE].is_prefix_of(tail),
    ensures
        Field::CapturedHeader(0, j).content(parse_line(line)->Ok_0) == piece_or_empty(
            nth_piece(block, PIPE, j as nat),
        ),
        Field::CapturedHeader(1, j).content(parse_line(line)->Ok_0) == Seq::<u8>::empty(),
{
    lemma_one_capture_block(line, block, tail);
    lemma_empty_capture_selects_nothing(parse_line(line)->Ok_0, 1, j);
}

/// Parsing and then extracting gives back what a line was written from:
/// of the text of fields, blocks and a request line that can be told apart,
/// each named field selects the bytes it was written from, and the request
/// line selects the request line.
pub proof fn lemma_extract_of_line_text(
    fields: Seq<Seq<u8>>,
    blocks: Seq<Seq<u8>>,
    request: Seq<u8>,
    trailer: Option<Seq<u8>>,
)
    requires
        well_formed(fields, blocks, request),
    ensures
        parse_line(line_text(fields, blocks, request, trailer)) is Ok,
        Field::ProcessName.content(parse_line(line_text(fields, blocks, request, trailer))->Ok_0)
            == fields[0],
        Field::ProcessId.content(parse_line(line_text(fields, blocks, request, trailer))->Ok_0)
            == fields[1],
        Field::ClientIp.content(parse_line(line_text(fields, blocks, request, trailer))->Ok_0)
            == fields[2],
        Field::ClientPort.content(parse_line(line_text(fields, blocks, request, trailer))->Ok_0)
            == fields[3],
        Field::AcceptDate.content(parse_line(line_text(fields, blocks, request, trailer))->Ok_0)
            == fields[4],
        Field::FrontendName.content(parse_line(line_text(fields, blocks, request, trailer))->Ok_0)
            == fields[5],
        Field::BackendName.content(parse_line(line_text(fields, blocks, request, trailer))->Ok_0)
            == fields[6],
        Field::ServerName.content(parse_line(line_text(fields, blocks, request, trailer))->Ok_0)
            == fields[7],
        Field::RequestTime.content(parse_line(line_text(fields, blocks, request, trailer))->Ok_0)
            == fields[8],
        Field::QueueTime.content(parse_line(line_text(fields, blocks, request, trailer))->Ok_0)
            == fields[9],
        Field::ConnectTime.content(parse_line(line_text(fields, blocks, request, trailer))->Ok_0)
            == fields[10],
        Field::ResponseTime.content(parse_line(line_text(fields, blocks, request, trailer))->Ok_0)
            == fields[11],
        Field::TotalTime.content(parse_line(line_text(fields, blocks, request, trailer))->Ok_0)
            == fields[12],
        Field::StatusCode.content(parse_line(line_text(fields, blocks, request, trailer))->Ok_0)
            == fields[13],
        Field::BytesRead.content(parse_line(line_text(fields, blocks, request, trailer))->Ok_0)
            == fields[14],
        Field::CapturedRequestCookie.content(parse_line(line_text(fields, blocks, request, trailer))->Ok_0)
            == fields[15],
        Field::CapturedResponseCookie.content(parse_line(line_text(fields, blocks, request, trailer))->Ok_0)
            == fields[16],
        Field::TerminationState.content(parse_line(line_text(fields, blocks, request, trailer))->Ok_0)
            == fields[17],
        Field::ActiveConnections.content(parse_line(line_text(fields, blocks, request, trailer))->Ok_0)
            == fields[18],
        Field::FrontendConnections.content(parse_line(line_text(fields, blocks, request, trailer))->Ok_0)
            == fields[19],
        Field::BackendConnections.content(parse_line(line_text(fields, blocks, request, trailer))->Ok_0)
            == fields[20],
        Field::ServerConnections.content(parse_line(line_text(fields, blocks, request, trailer))->Ok_0)
            == fields[21],
        Field::RetriedConnections.content(parse_line(line_text(fields, blocks, request, trailer))->Ok_0)
            == fields[22],
        Field::ServerQueue.content(parse_line(line_text(fields, blocks, request, trailer))->Ok_0)
            == fields[23],
        Field::BackendQueue.content(parse_line(line_text(fields, blocks, request, trailer))->Ok_0)
            == fields[24],
        Field::HttpRequest.content(parse_line(line_text(fields, blocks, request, trailer))->Ok_0)
            == request,
        forall|i: usize, j: usize|
            i < CAPTURE_SLOTS ==> #[trigger] Field::CapturedHeader(i, j).content(
                parse_line(line_text(fields, blocks, request, trailer))->Ok_0,
            ) == piece_or_empty(nth_piece(capture_slot(blocks, i as int), PIPE, j as nat)),
{
    lemma_parse_of_line_text(fields, blocks, request, trailer);
}

/// Decoding keeps the order of the names: where all the names select a
/// field, there are as many fields as names, and each field is the one that
/// the name at its place selects. Otherwise the error is that of the first
/// name that selects none.
pub proof fn lemma_decode_all_in_order(names: Seq<Seq<u8>>)
    ensures
        match decode_all(names) {
            Ok(fields) => {
                &&& fields.len() == names.len()
                &&& forall|k: int|
                    0 <= k < names.len() ==> decode_name(#[trigger] names[k]) == Ok::<_, FieldErrorView>(
                        fields[k],
                    )
            },
            Err(e) => exists|k: int|
                {
                    &&& 0 <= k < names.len()
                    &&& decode_name(#[trigger] names[k]) == Err::<Field, _>(e)
                    &&& forall|i: int| 0 <= i < k ==> decode_name(#[trigger] names[i]) is Ok
                },
        },
    decreases names.len(),
{
    if names.len() > 0 {
        let rest = names.drop_first();
        lemma_decode_all_in_order(rest);
        match decode_name(names[0]) {
            Ok(field) => {
                match decode_all(rest) {
                    Ok(more) => {
                        let fields = seq![field] + more;
                        assert forall|k: int| 0 <= k < names.len() implies decode_name(
                            #[trigger] names[k],
                        ) == Ok::<_, FieldErrorView>(fields[k]) by {
                            if k > 0 {
                                assert(names[k] == rest[k - 1]);
                            }
                        }
                    },
                    Err(e) => {
                        let k = choose|k: int|
                            {
                                &&& 0 <= k < rest.len()
                                &&& decode_name(#[trigger] rest[k]) == Err::<Field, _>(e)
                                &&& forall|i: int| 0 <= i < k ==> decode_name(#[trigger] rest[i]) is Ok
                            };
                        assert(names[k + 1] == rest[k]);
                        assert forall|i: int| 0 <= i < k + 1 implies decode_name(
                            #[trigger] names[i],
                        ) is Ok by {
                            if i > 0 {
                                assert(names[i] == rest[i - 1]);
                            }
                        }
                    },
                }
            },
            Err(e) => {
                assert(decode_name(names[0]) == Err::<Field, _>(e));
            },
        }
    }
}

/// Joining keeps the order of the fields: the contents of two runs of
/// fields, one after the other, are the contents of the first run, the
/// delimiter, and the contents of the second.
pub proof fn lemma_joined_in_order(
    first: Seq<Field>,
    second: Seq<Field>,
    entry: LogEntryView,
    delimiter: Seq<u8>,
)
    requires
        first.len() > 0,
        second.len() > 0,
    ensures
        joined(first + second, entry, delimiter) == joined(first, entry, delimiter) + delimiter
            + joined(second, entry, delimiter),
    decreases second.len(),
{
    let all = first + second;
    assert(all.drop_last() =~= first + second.drop_last());
    assert(all.last() == second.last());
    if second.len() == 1 {
        assert(first + second.drop_last() =~= first);
    } else {
        lemma_joined_in_order(first, second.drop_last(), entry, delimiter);
        assert(joined(all, entry, delimiter) =~= joined(first, entry, delimiter) + delimiter
            + joined(second, entry, delimiter));
    }
}

} // verus!
