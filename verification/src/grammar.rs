//! The grammar of a log line, and what a line parses to.
//!
//! A line is a run of fixed fields, each ended by a delimiter that a literal
//! may follow; then up to two capture blocks in braces; then the request
//! line in double quotes, whose closing quote may be missing where the line
//! was cut short.

use vstd::prelude::*;

use crate::slicer::{
    after_token, lemma_first_index, lemma_token_of_joined, lemma_token_splits, token, SliceError,
};

verus! {

/// `[`
pub const OPEN_BRACKET: u8 = 0x5b;

/// `]`
pub const CLOSE_BRACKET: u8 = 0x5d;

/// `{`
pub const OPEN_BRACE: u8 = 0x7b;

/// `}`
pub const CLOSE_BRACE: u8 = 0x7d;

/// `:`
pub const COLON: u8 = 0x3a;

/// ` `
pub const SPACE: u8 = 0x20;

/// `/`
pub const SLASH: u8 = 0x2f;

/// `"`
pub const QUOTE: u8 = 0x22;

/// `|`
pub const PIPE: u8 = 0x7c;

/// How many fields a line has before its capture blocks.
pub const FIXED_FIELDS: usize = 25;

/// How many capture blocks a line can have.
pub const CAPTURE_SLOTS: usize = 2;

/// The byte that ends the `k`-th fixed field of a line.
///
/// In order, with the literal that follows where there is one, a line reads
///
/// ```text
/// process_name '[' pid ']' ": " client_ip ':' client_port ' ' "[" accept_date ']' " "
/// frontend_name ' ' backend_name '/' server_name ' '
/// Tq '/' Tw '/' Tc '/' Tr '/' Tt ' ' status_code ' ' bytes_read ' '
/// captured_request_cookie ' ' captured_response_cookie ' ' termination_state ' '
/// actconn '/' feconn '/' beconn '/' srv_conn '/' retries ' ' srv_queue '/' backend_queue ' '
/// ```
pub open spec fn delimiter(k: int) -> u8 {
    if k == 0 {
        OPEN_BRACKET
    } else if k == 1 || k == 4 {
        CLOSE_BRACKET
    } else if k == 2 {
        COLON
    } else if k == 6 || 8 <= k <= 11 || 18 <= k <= 21 || k == 23 {
        SLASH
    } else {
        SPACE
    }
}

/// The literal that has to follow the delimiter of the `k`-th fixed field.
pub open spec fn literal_after(k: int) -> Seq<u8> {
    if k == 1 {
        seq![COLON, SPACE]
    } else if k == 3 {
        seq![OPEN_BRACKET]
    } else if k == 4 {
        seq![SPACE]
    } else {
        Seq::empty()
    }
}

/// Reads one piece of `s`: the bytes up to the first `delim`, which `literal`
/// has to follow. Gives the piece and what is left after the literal.
pub open spec fn piece(s: Seq<u8>, delim: u8, literal: Seq<u8>) -> Result<
    (Seq<u8>, Seq<u8>),
    SliceError,
> {
    if !s.contains(delim) {
        Err(SliceError::ExpectedToken(delim))
    } else if !literal.is_prefix_of(after_token(s, delim)) {
        Err(SliceError::UnexpectedTokens)
    } else {
        Ok((token(s, delim), after_token(s, delim).skip(literal.len() as int)))
    }
}

/// Reads the fixed fields from the `k`-th on, adding them to `found`. Gives
/// all the fixed fields and what is left of the line after them.
pub open spec fn fixed_fields(s: Seq<u8>, k: int, found: Seq<Seq<u8>>) -> Result<
    (Seq<Seq<u8>>, Seq<u8>),
    SliceError,
>
    decreases FIXED_FIELDS - k,
{
    if k >= FIXED_FIELDS {
        Ok((found, s))
    } else {
        match piece(s, delimiter(k), literal_after(k)) {
            Err(e) => Err(e),
            Ok((field, rest)) => fixed_fields(rest, k + 1, found.push(field)),
        }
    }
}

/// Reads up to `slots` capture blocks, each of the form `'{' block '}' ' '`,
/// adding them to `found`. Reading stops without an error where the next byte
/// is not `{`. Gives the blocks and what is left of the line after them.
pub open spec fn capture_blocks(s: Seq<u8>, slots: nat, found: Seq<Seq<u8>>) -> Result<
    (Seq<Seq<u8>>, Seq<u8>),
    SliceError,
>
    decreases slots,
{
    if slots == 0 || !seq![OPEN_BRACE].is_prefix_of(s) {
        Ok((found, s))
    } else {
        match piece(s.skip(1), CLOSE_BRACE, seq![SPACE]) {
            Err(e) => Err(e),
            Ok((block, rest)) => capture_blocks(rest, (slots - 1) as nat, found.push(block)),
        }
    }
}

/// The `i`-th capture slot: the `i`-th block that was found, or nothing.
pub open spec fn capture_slot(blocks: Seq<Seq<u8>>, i: int) -> Seq<u8> {
    if 0 <= i < blocks.len() {
        blocks[i]
    } else {
        Seq::empty()
    }
}

/// What a log line holds, as plain byte sequences.
pub struct LogEntryView {
    pub process_name: Seq<u8>,
    pub pid: Seq<u8>,
    pub client_ip: Seq<u8>,
    pub client_port: Seq<u8>,
    pub accept_date: Seq<u8>,
    pub frontend_name: Seq<u8>,
    pub backend_name: Seq<u8>,
    pub server_name: Seq<u8>,
    pub request_time: Seq<u8>,
    pub queue_time: Seq<u8>,
    pub connect_time: Seq<u8>,
    pub response_time: Seq<u8>,
    pub total_time: Seq<u8>,
    pub status_code: Seq<u8>,
    pub bytes_read: Seq<u8>,
    pub captured_request_cookie: Seq<u8>,
    pub captured_response_cookie: Seq<u8>,
    pub termination_state: Seq<u8>,
    pub active_connections: Seq<u8>,
    pub frontend_connections: Seq<u8>,
    pub backend_connections: Seq<u8>,
    pub server_connections: Seq<u8>,
    pub retried_connections: Seq<u8>,
    pub server_queue: Seq<u8>,
    pub backend_queue: Seq<u8>,
    pub captures: Seq<Seq<u8>>,
    pub http_request: Seq<u8>,
}

/// The entry made of the fixed fields in their order, the capture blocks
/// that were found, and the request line.
pub open spec fn entry_of(fields: Seq<Seq<u8>>, blocks: Seq<Seq<u8>>, request: Seq<u8>) -> LogEntryView {
    LogEntryView {
        process_name: fields[0],
        pid: fields[1],
        client_ip: fields[2],
        client_port: fields[3],
        accept_date: fields[4],
        frontend_name: fields[5],
        backend_name: fields[6],
        server_name: fields[7],
        request_time: fields[8],
        queue_time: fields[9],
        connect_time: fields[10],
        response_time: fields[11],
        total_time: fields[12],
        status_code: fields[13],
        bytes_read: fields[14],
        captured_request_cookie: fields[15],
        captured_response_cookie: fields[16],
        termination_state: fields[17],
        active_connections: fields[18],
        frontend_connections: fields[19],
        backend_connections: fields[20],
        server_connections: fields[21],
        retried_connections: fields[22],
        server_queue: fields[23],
        backend_queue: fields[24],
        captures: seq![capture_slot(blocks, 0), capture_slot(blocks, 1)],
        http_request: request,
    }
}

/// What a line parses to: the fixed fields, then up to two capture blocks,
/// then an opening quote and the request line, which runs to the closing
/// quote or, where there is none, to the end of the line.
pub open spec fn parse_line(line: Seq<u8>) -> Result<LogEntryView, SliceError> {
    match fixed_fields(line, 0, Seq::empty()) {
        Err(e) => Err(e),
        Ok((fields, rest)) => match capture_blocks(rest, CAPTURE_SLOTS as nat, Seq::empty()) {
            Err(e) => Err(e),
            Ok((blocks, rest)) => if seq![QUOTE].is_prefix_of(rest) {
                Ok(entry_of(fields, blocks, token(rest.skip(1), QUOTE)))
            } else {
                Err(SliceError::UnexpectedTokens)
            },
        },
    }
}

/// The text of the fixed fields from the `from`-th up to, not including, the
/// `to`-th: each field, its delimiter, and the literal that follows it.
pub open spec fn fields_text(fields: Seq<Seq<u8>>, from: int, to: int) -> Seq<u8>
    decreases to - from,
{
    if from >= to {
        Seq::empty()
    } else {
        fields[from] + seq![delimiter(from)] + literal_after(from) + fields_text(fields, from + 1, to)
    }
}

/// The text of capture blocks: each in braces, with a space behind it.
pub open spec fn blocks_text(blocks: Seq<Seq<u8>>) -> Seq<u8>
    decreases blocks.len(),
{
    if blocks.len() == 0 {
        Seq::empty()
    } else {
        seq![OPEN_BRACE] + blocks[0] + seq![CLOSE_BRACE, SPACE] + blocks_text(blocks.drop_first())
    }
}

/// The text of a request line: in quotes and followed by `trailer`, or, where
/// the line was cut short, with the opening quote only.
pub open spec fn request_text(request: Seq<u8>, trailer: Option<Seq<u8>>) -> Seq<u8> {
    match trailer {
        Some(more) => seq![QUOTE] + request + seq![QUOTE] + more,
        None => seq![QUOTE] + request,
    }
}

/// The text of a whole line.
pub open spec fn line_text(
    fields: Seq<Seq<u8>>,
    blocks: Seq<Seq<u8>>,
    request: Seq<u8>,
    trailer: Option<Seq<u8>>,
) -> Seq<u8> {
    fields_text(fields, 0, FIXED_FIELDS as int) + blocks_text(blocks) + request_text(
        request,
        trailer,
    )
}

/// Whether the fixed fields from the `from`-th up to the `to`-th can be told
/// apart again in their text: none holds the delimiter that ends it.
pub open spec fn fields_delimited(fields: Seq<Seq<u8>>, from: int, to: int) -> bool {
    &&& 0 <= from <= to <= FIXED_FIELDS
    &&& to <= fields.len()
    &&& forall|k: int| from <= k < to ==> !(#[trigger] fields[k]).contains(delimiter(k))
}

/// Whether the parts of a line can be told apart again in its text: there
/// are all the fixed fields and at most two blocks, no fixed field holds its
/// delimiter, no block holds `}`, and the request line holds no `"`.
pub open spec fn well_formed(fields: Seq<Seq<u8>>, blocks: Seq<Seq<u8>>, request: Seq<u8>) -> bool {
    &&& fields.len() == FIXED_FIELDS
    &&& fields_delimited(fields, 0, FIXED_FIELDS as int)
    &&& blocks.len() <= CAPTURE_SLOTS
    &&& forall|k: int| 0 <= k < blocks.len() ==> !(#[trigger] blocks[k]).contains(CLOSE_BRACE)
    &&& !request.contains(QUOTE)
}

/// A delimiter-free head, its delimiter, a literal and a tail read as one
/// piece: the head, with the tail left.
pub proof fn lemma_piece_of_text(head: Seq<u8>, delim: u8, literal: Seq<u8>, tail: Seq<u8>)
    requires
        !head.contains(delim),
    ensures
        piece(head + seq![delim] + literal + tail, delim, literal) == Ok::<_, SliceError>(
            (head, tail),
        ),
{
    let s = head + seq![delim] + literal + tail;
    assert(s =~= head + seq![delim] + (literal + tail));
    lemma_token_of_joined(head, delim, literal + tail);
    assert((literal + tail).subrange(0, literal.len() as int) =~= literal);
    assert((literal + tail).skip(literal.len() as int) =~= tail);
}

/// Reading the text of some fixed fields, with anything behind it, finds
/// those fields and goes on behind them.
pub proof fn lemma_fields_text_parses(
    fields: Seq<Seq<u8>>,
    from: int,
    to: int,
    found: Seq<Seq<u8>>,
    tail: Seq<u8>,
)
    requires
        fields_delimited(fields, from, to),
    ensures
        fixed_fields(fields_text(fields, from, to) + tail, from, found) == fixed_fields(
            tail,
            to,
            found + fields.subrange(from, to),
        ),
    decreases to - from,
{
    if from >= to {
        assert(fields_text(fields, from, to) + tail =~= tail);
        assert(found + fields.subrange(from, to) =~= found);
    } else {
        let rest = fields_text(fields, from + 1, to) + tail;
        assert(fields_text(fields, from, to) + tail =~= fields[from] + seq![delimiter(from)]
            + literal_after(from) + rest);
        lemma_piece_of_text(fields[from], delimiter(from), literal_after(from), rest);
        lemma_fields_text_parses(fields, from + 1, to, found.push(fields[from]), tail);
        assert(found.push(fields[from]) + fields.subrange(from + 1, to) =~= found
            + fields.subrange(from, to));
    }
}

/// Reading the text of capture blocks finds those blocks, where there is
/// room for them and what stands behind them does not look like one more.
pub proof fn lemma_blocks_text_parses(
    blocks: Seq<Seq<u8>>,
    slots: nat,
    found: Seq<Seq<u8>>,
    tail: Seq<u8>,
)
    requires
        blocks.len() <= slots,
        forall|k: int| 0 <= k < blocks.len() ==> !(#[trigger] blocks[k]).contains(CLOSE_BRACE),
        blocks.len() < slots ==> !seq![OPEN_BRACE].is_prefix_of(tail),
    ensures
        capture_blocks(blocks_text(blocks) + tail, slots, found) == Ok::<_, SliceError>(
            (found + blocks, tail),
        ),
    decreases blocks.len(),
{
    if blocks.len() == 0 {
        assert(blocks_text(blocks) + tail =~= tail);
        assert(found + blocks =~= found);
    } else {
        let rest = blocks_text(blocks.drop_first()) + tail;
        let s = blocks_text(blocks) + tail;
        assert(s =~= seq![OPEN_BRACE] + (blocks[0] + seq![CLOSE_BRACE] + seq![SPACE] + rest));
        assert(s.subrange(0, 1) =~= seq![OPEN_BRACE]);
        assert(s.skip(1) =~= blocks[0] + seq![CLOSE_BRACE] + seq![SPACE] + rest);
        lemma_piece_of_text(blocks[0], CLOSE_BRACE, seq![SPACE], rest);
        assert forall|k: int| 0 <= k < blocks.drop_first().len() implies !(
        #[trigger] blocks.drop_first()[k]).contains(CLOSE_BRACE) by {
            assert(blocks.drop_first()[k] == blocks[k + 1]);
        }
        lemma_blocks_text_parses(
            blocks.drop_first(),
            (slots - 1) as nat,
            found.push(blocks[0]),
            tail,
        );
        assert(found.push(blocks[0]) + blocks.drop_first() =~= found + blocks);
    }
}

/// A request line is read up to its closing quote, or to the end of the
/// line where there is none.
pub proof fn lemma_request_text_parses(request: Seq<u8>, trailer: Option<Seq<u8>>)
    requires
        !request.contains(QUOTE),
    ensures
        seq![QUOTE].is_prefix_of(request_text(request, trailer)),
        !seq![OPEN_BRACE].is_prefix_of(request_text(request, trailer)),
        token(request_text(request, trailer).skip(1), QUOTE) == request,
{
    let s = request_text(request, trailer);
    assert(s.subrange(0, 1) =~= seq![QUOTE]);
    if seq![OPEN_BRACE].is_prefix_of(s) {
        assert(s.subrange(0, 1)[0] == OPEN_BRACE);
    }
    match trailer {
        Some(more) => {
            assert(s.skip(1) =~= request + seq![QUOTE] + more);
            lemma_token_of_joined(request, QUOTE, more);
        },
        None => {
            assert(s.skip(1) =~= request);
            lemma_first_index(request, QUOTE);
            assert(request.take(request.len() as int) =~= request);
        },
    }
}

/// Parsing gives back what a line was written from: the text of fields,
/// blocks and a request line that can be told apart parses to the entry
/// made of just these, whether or not the request line was cut short.
pub proof fn lemma_parse_of_line_text(
    fields: Seq<Seq<u8>>,
    blocks: Seq<Seq<u8>>,
    request: Seq<u8>,
    trailer: Option<Seq<u8>>,
)
    requires
        well_formed(fields, blocks, request),
    ensures
        parse_line(line_text(fields, blocks, request, trailer)) == Ok::<_, SliceError>(
            entry_of(fields, blocks, request),
        ),
{
    let last = request_text(request, trailer);
    let tail = blocks_text(blocks) + last;
    let line = line_text(fields, blocks, request, trailer);
    assert(line =~= fields_text(fields, 0, FIXED_FIELDS as int) + tail);
    lemma_fields_text_parses(fields, 0, FIXED_FIELDS as int, Seq::empty(), tail);
    assert(Seq::<Seq<u8>>::empty() + fields.subrange(0, FIXED_FIELDS as int) =~= fields);
    lemma_request_text_parses(request, trailer);
    lemma_blocks_text_parses(blocks, CAPTURE_SLOTS as nat, Seq::empty(), last);
    assert(Seq::<Seq<u8>>::empty() + blocks =~= blocks);
}

/// What is read as a piece was written as one: a buffer that reads as a
/// piece is that piece, the delimiter, the literal and what is left.
pub proof fn lemma_text_of_piece(s: Seq<u8>, delim: u8, literal: Seq<u8>)
    requires
        piece(s, delim, literal) is Ok,
    ensures
        s == piece(s, delim, literal)->Ok_0.0 + seq![delim] + literal + piece(
            s,
            delim,
            literal,
        )->Ok_0.1,
        !piece(s, delim, literal)->Ok_0.0.contains(delim),
{
    lemma_token_splits(s, delim);
    let after = after_token(s, delim);
    let n = literal.len() as int;
    assert(after =~= after.subrange(0, n) + after.skip(n));
    assert(s =~= token(s, delim) + seq![delim] + literal + after.skip(n));
}

/// The fixed fields that are read were written: where reading from the
/// `k`-th fixed field on succeeds, the buffer is the text of the fields that
/// were added, followed by what is left, and none of them holds its
/// delimiter.
pub proof fn lemma_text_of_fixed_fields(s: Seq<u8>, k: int, found: Seq<Seq<u8>>) -> (r: (
    Seq<Seq<u8>>,
    Seq<u8>,
))
    requires
        0 <= k <= FIXED_FIELDS,
        found.len() == k,
        fixed_fields(s, k, found) is Ok,
    ensures
        fixed_fields(s, k, found) == Ok::<_, SliceError>(r),
        r.0.len() == FIXED_FIELDS,
        r.0.take(k) == found,
        fields_delimited(r.0, k, FIXED_FIELDS as int),
        s == fields_text(r.0, k, FIXED_FIELDS as int) + r.1,
    decreases FIXED_FIELDS - k,
{
    if k >= FIXED_FIELDS {
        assert(found.take(k) =~= found);
        assert(fields_text(found, k, FIXED_FIELDS as int) + s =~= s);
        (found, s)
    } else {
        let (field, rest) = piece(s, delimiter(k), literal_after(k))->Ok_0;
        lemma_text_of_piece(s, delimiter(k), literal_after(k));
        let r = lemma_text_of_fixed_fields(rest, k + 1, found.push(field));
        let fields = r.0;
        assert(fields.take(k + 1)[k] == field);
        assert(fields[k] == field);
        assert(fields.take(k) =~= fields.take(k + 1).take(k));
        assert(found.push(field).take(k) =~= found);
        assert(s =~= fields_text(fields, k, FIXED_FIELDS as int) + r.1);
        r
    }
}

/// The capture blocks that are read were written: where reading capture
/// blocks succeeds, the buffer is the text of the blocks that were added,
/// followed by what is left; no block holds `}`; and where there was room
/// for more, what is left does not begin with `{`.
pub proof fn lemma_text_of_capture_blocks(s: Seq<u8>, slots: nat, found: Seq<Seq<u8>>) -> (r: (
    Seq<Seq<u8>>,
    Seq<u8>,
))
    requires
        capture_blocks(s, slots, found) is Ok,
    ensures
        capture_blocks(s, slots, found) == Ok::<_, SliceError>((found + r.0, r.1)),
        r.0.len() <= slots,
        forall|i: int| 0 <= i < r.0.len() ==> !(#[trigger] r.0[i]).contains(CLOSE_BRACE),
        r.0.len() < slots ==> !seq![OPEN_BRACE].is_prefix_of(r.1),
        s == blocks_text(r.0) + r.1,
    decreases slots,
{
    if slots == 0 || !seq![OPEN_BRACE].is_prefix_of(s) {
        let none = Seq::<Seq<u8>>::empty();
        assert(found + none =~= found);
        assert(blocks_text(none) + s =~= s);
        (none, s)
    } else {
        let (block, rest) = piece(s.skip(1), CLOSE_BRACE, seq![SPACE])->Ok_0;
        lemma_text_of_piece(s.skip(1), CLOSE_BRACE, seq![SPACE]);
        let r = lemma_text_of_capture_blocks(rest, (slots - 1) as nat, found.push(block));
        let blocks = seq![block] + r.0;
        assert(found.push(block) + r.0 =~= found + blocks);
        assert(blocks.drop_first() =~= r.0);
        assert(s =~= s.subrange(0, 1) + s.skip(1));
        assert(s.subrange(0, 1) == seq![OPEN_BRACE]);
        assert(seq![CLOSE_BRACE] + seq![SPACE] =~= seq![CLOSE_BRACE, SPACE]);
        assert(s =~= blocks_text(blocks) + r.1);
        assert forall|i: int| 0 <= i < blocks.len() implies !(#[trigger] blocks[i]).contains(
            CLOSE_BRACE,
        ) by {
            if i > 0 {
                assert(blocks[i] == r.0[i - 1]);
            }
        }
        (blocks, r.1)
    }
}

/// A line that parses is the text of what it parses to: it is written from
/// fixed fields, blocks and a request line that can be told apart, and the
/// entry is the one made of these. So every field of an entry is a run of
/// bytes of its line.
pub proof fn lemma_text_of_parsed_line(line: Seq<u8>) -> (r: (
    Seq<Seq<u8>>,
    Seq<Seq<u8>>,
    Seq<u8>,
    Option<Seq<u8>>,
))
    requires
        parse_line(line) is Ok,
    ensures
        well_formed(r.0, r.1, r.2),
        line == line_text(r.0, r.1, r.2, r.3),
        parse_line(line) == Ok::<_, SliceError>(entry_of(r.0, r.1, r.2)),
{
    let none = Seq::<Seq<u8>>::empty();
    let (fields, after_fields) = lemma_text_of_fixed_fields(line, 0, none);
    let (blocks, last) = lemma_text_of_capture_blocks(after_fields, CAPTURE_SLOTS as nat, none);
    assert(none + blocks =~= blocks);
    let quoted = last.skip(1);
    let request = token(quoted, QUOTE);
    assert(last =~= seq![QUOTE] + quoted);
    lemma_first_index(quoted, QUOTE);
    let trailer = if quoted.contains(QUOTE) {
        lemma_token_splits(quoted, QUOTE);
        Some(after_token(quoted, QUOTE))
    } else {
        assert(quoted.take(quoted.len() as int) =~= quoted);
        None
    };
    assert(last =~= request_text(request, trailer));
    assert(line =~= line_text(fields, blocks, request, trailer));
    (fields, blocks, request, trailer)
}

/// A line without capture blocks leaves both capture slots empty: where a
/// line parses and no `{` stands behind its fixed fields, the entry holds
/// nothing in either slot.
pub proof fn lemma_no_capture_block(line: Seq<u8>)
    requires
        parse_line(line) is Ok,
        fixed_fields(line, 0, Seq::empty()) matches Ok((_, rest)) && !seq![OPEN_BRACE].is_prefix_of(
            rest,
        ),
    ensures
        parse_line(line)->Ok_0.captures == seq![Seq::<u8>::empty(), Seq::<u8>::empty()],
{
}

/// A line with one capture block holds it in the first slot, whatever the
/// block is, and nothing in the second: where a line parses and behind its
/// fixed fields stand `{`, a block, `} ` and then no further `{`, the first
/// slot is that block and the second is empty.
pub proof fn lemma_one_capture_block(line: Seq<u8>, block: Seq<u8>, tail: Seq<u8>)
    requires
        parse_line(line) is Ok,
        fixed_fields(line, 0, Seq::empty()) matches Ok((_, rest)) && rest == seq![OPEN_BRACE]
            + block + seq![CLOSE_BRACE, SPACE] + tail,
        !block.contains(CLOSE_BRACE),
        !seq![OPEN_BRACE].is_prefix_of(tail),
    ensures
        parse_line(line)->Ok_0.captures == seq![block, Seq::<u8>::empty()],
{
    let rest = fixed_fields(line, 0, Seq::empty())->Ok_0.1;
    let blocks = seq![block];
    assert(blocks.drop_first() =~= Seq::<Seq<u8>>::empty());
    assert(blocks_text(blocks.drop_first()) =~= Seq::<u8>::empty());
    assert(blocks_text(blocks) =~= seq![OPEN_BRACE] + block + seq![CLOSE_BRACE, SPACE]);
    assert(blocks_text(blocks) + tail =~= rest);
    lemma_blocks_text_parses(blocks, CAPTURE_SLOTS as nat, Seq::empty(), tail);
    assert(Seq::<Seq<u8>>::empty() + blocks =~= blocks);
}

/// A request line that was cut short is the rest of the line: where the
/// fixed fields and the capture blocks of a line are read and what is left
/// is a quote and then no other, the line parses and its request line is
/// all that follows the quote.
pub proof fn lemma_request_cut_short(line: Seq<u8>, request: Seq<u8>)
    requires
        fixed_fields(line, 0, Seq::empty()) matches Ok((_, rest)) && capture_blocks(
            rest,
            CAPTURE_SLOTS as nat,
            Seq::empty(),
        ) matches Ok((_, last)) && last == seq![QUOTE] + request,
        !request.contains(QUOTE),
    ensures
        parse_line(line) is Ok,
        parse_line(line)->Ok_0.http_request == request,
{
    lemma_request_text_parses(request, None);
}

/// A line that lacks a delimiter does not parse: where the first `k` fixed
/// fields are there and what follows them does not hold the delimiter of
/// the next, the line is rejected for that delimiter.
pub proof fn lemma_missing_delimiter(fields: Seq<Seq<u8>>, k: int, tail: Seq<u8>)
    requires
        fields_delimited(fields, 0, k),
        k < FIXED_FIELDS,
        !tail.contains(delimiter(k)),
    ensures
        parse_line(fields_text(fields, 0, k) + tail) == Err::<LogEntryView, _>(
            SliceError::ExpectedToken(delimiter(k)),
        ),
{
    lemma_fields_text_parses(fields, 0, k, Seq::empty(), tail);
}

/// A line that lacks the literal behind a delimiter does not parse: where
/// the first `k` fixed fields are there and the next is ended by its
/// delimiter, but the literal that has to follow is not there, the line is
/// rejected.
pub proof fn lemma_missing_literal(fields: Seq<Seq<u8>>, k: int, tail: Seq<u8>)
    requires
        fields_delimited(fields, 0, k),
        k < FIXED_FIELDS,
        tail.contains(delimiter(k)),
        !literal_after(k).is_prefix_of(after_token(tail, delimiter(k))),
    ensures
        parse_line(fields_text(fields, 0, k) + tail) == Err::<LogEntryView, _>(
            SliceError::UnexpectedTokens,
        ),
{
    lemma_fields_text_parses(fields, 0, k, Seq::empty(), tail);
}

/// A line with a capture block that is not closed does not parse: where
/// the fixed fields are read and what is left begins with `{` but holds no
/// `}`, the line is rejected for that.
pub proof fn lemma_unclosed_capture_block(line: Seq<u8>)
    requires
        fixed_fields(line, 0, Seq::empty()) matches Ok((_, rest)) && seq![OPEN_BRACE].is_prefix_of(
            rest,
        ) && !rest.skip(1).contains(CLOSE_BRACE),
    ensures
        parse_line(line) == Err::<LogEntryView, _>(SliceError::ExpectedToken(CLOSE_BRACE)),
{
}

/// A line without its opening quote does not parse: where the fixed fields
/// and the capture blocks are read and what is left does not begin with a
/// quote, the line is rejected.
pub proof fn lemma_missing_quote(line: Seq<u8>)
    requires
        fixed_fields(line, 0, Seq::empty()) matches Ok((_, rest)) && capture_blocks(
            rest,
            CAPTURE_SLOTS as nat,
            Seq::empty(),
        ) matches Ok((_, last)) && !seq![QUOTE].is_prefix_of(last),
    ensures
        parse_line(line) == Err::<LogEntryView, _>(SliceError::UnexpectedTokens),
{
}

} // verus!
