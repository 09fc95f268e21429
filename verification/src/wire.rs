//! The wire codec: arguments and messages as bytes, and back.
//!
//! A message is an 8-byte header followed by the bytes of its arguments in
//! their declared order. Numbers take four bytes. Text and byte arrays are
//! written as they are, with no length in front and no padding behind, so a
//! reader finds their end only through the schema: an argument of variable
//! length reaches as far as the arguments after it leave room.

use vstd::prelude::*;
use vstd::slice::slice_subrange;
use vstd::utf8::*;
use crate::endian::{
    get_word, lemma_sign_round_trip, lemma_word_round_trip, put_word,
    signed_of, to_signed, to_unsigned, unsigned_of, word_bytes, word_value, ByteOrder,
};
use crate::error::WaylandError;

verus! {

/// The number by which both sides name an object of the connection.
pub type Id = u32;

/// The number that selects a request or an event of an object.
pub type OpCode = usize;

/// The length of a message header in bytes.
pub const HEADER_LEN: usize = 8;

/// The largest length that a header can declare.
pub const MAX_MESSAGE_LEN: usize = 0xFFFF;

/// The shape that a reader expects of one argument.
#[derive(Debug, Clone, Copy, PartialEq, Eq, Structural)]
pub enum WireArgumentKind {
    Int,
    UnInt,
    FixedPrecision,
    String,
    Obj,
    NewId,
    NewIdSpecific,
    Arr,
    FileDescriptor,
}

/// One argument of a message.
#[derive(Debug, Clone, PartialEq, Eq)]
pub enum WireArgument {
    /// A signed number.
    Int(i32),
    /// An unsigned number.
    UnInt(u32),
    /// A 24.8 fixed-point number, carried as its 32 bits.
    FixedPrecision(u32),
    /// Text.
    String(String),
    /// A reference to an object that exists.
    Obj(Id),
    /// The id of an object that this message brings into being.
    NewId(Id),
    /// A new id together with the interface name and version it is bound to.
    NewIdSpecific(String, u32, Id),
    /// Bytes without further meaning to the codec.
    Arr(Vec<u8>),
    /// A file descriptor. The byte stream holds a placeholder for it; the
    /// descriptor itself travels beside the bytes.
    FileDescriptor(i32),
}

/// What an argument is, apart from how it is stored.
pub enum ArgValue {
    Int(i32),
    UnInt(u32),
    FixedPrecision(u32),
    Text(Seq<char>),
    Obj(Id),
    NewId(Id),
    NewIdSpecific(Seq<char>, u32, Id),
    Arr(Seq<u8>),
    FileDescriptor(i32),
}

impl View for WireArgument {
    type V = ArgValue;

    open spec fn view(&self) -> ArgValue {
        match self {
            WireArgument::Int(x) => ArgValue::Int(*x),
            WireArgument::UnInt(x) => ArgValue::UnInt(*x),
            WireArgument::FixedPrecision(x) => ArgValue::FixedPrecision(*x),
            WireArgument::String(s) => ArgValue::Text(s@),
            WireArgument::Obj(x) => ArgValue::Obj(*x),
            WireArgument::NewId(x) => ArgValue::NewId(*x),
            WireArgument::NewIdSpecific(s, v, id) => ArgValue::NewIdSpecific(s@, *v, *id),
            WireArgument::Arr(b) => ArgValue::Arr(b@),
            WireArgument::FileDescriptor(fd) => ArgValue::FileDescriptor(*fd),
        }
    }
}

impl ArgValue {
    /// The shape of the argument.
    pub open spec fn kind(self) -> WireArgumentKind {
        match self {
            ArgValue::Int(_) => WireArgumentKind::Int,
            ArgValue::UnInt(_) => WireArgumentKind::UnInt,
            ArgValue::FixedPrecision(_) => WireArgumentKind::FixedPrecision,
            ArgValue::Text(_) => WireArgumentKind::String,
            ArgValue::Obj(_) => WireArgumentKind::Obj,
            ArgValue::NewId(_) => WireArgumentKind::NewId,
            ArgValue::NewIdSpecific(_, _, _) => WireArgumentKind::NewIdSpecific,
            ArgValue::Arr(_) => WireArgumentKind::Arr,
            ArgValue::FileDescriptor(_) => WireArgumentKind::FileDescriptor,
        }
    }

    /// The number of bytes that the argument takes in a message.
    pub open spec fn size(self) -> nat {
        match self {
            ArgValue::Text(s) => encode_utf8(s).len(),
            ArgValue::NewIdSpecific(s, _, _) => encode_utf8(s).len() + 8,
            ArgValue::Arr(b) => b.len(),
            _ => 4,
        }
    }

    /// The bytes of the argument.
    pub open spec fn bytes(self, order: ByteOrder) -> Seq<u8> {
        match self {
            ArgValue::Int(x) => word_bytes(unsigned_of(x), order),
            ArgValue::UnInt(x) => word_bytes(x, order),
            ArgValue::FixedPrecision(x) => word_bytes(x, order),
            ArgValue::Text(s) => encode_utf8(s),
            ArgValue::Obj(x) => word_bytes(x, order),
            ArgValue::NewId(x) => word_bytes(x, order),
            ArgValue::NewIdSpecific(s, v, id) => encode_utf8(s) + word_bytes(v, order)
                + word_bytes(id, order),
            ArgValue::Arr(b) => b,
            ArgValue::FileDescriptor(fd) => word_bytes(unsigned_of(fd), order),
        }
    }

    /// The size of an argument is the number of its bytes, in either order.
    pub proof fn lemma_size_is_len(self, order: ByteOrder)
        ensures
            self.bytes(order).len() == self.size(),
    {
    }
}

impl WireArgumentKind {
    /// Whether arguments of this kind may differ in length.
    pub open spec fn is_variable(self) -> bool {
        self == WireArgumentKind::String || self == WireArgumentKind::Arr || self
            == WireArgumentKind::NewIdSpecific
    }

    /// The least number of bytes that an argument of this kind takes.
    pub open spec fn min_size(self) -> nat {
        match self {
            WireArgumentKind::String => 0,
            WireArgumentKind::Arr => 0,
            WireArgumentKind::NewIdSpecific => 8,
            _ => 4,
        }
    }

    /// Computes [`Self::min_size`].
    pub fn least_size(&self) -> (n: usize)
        ensures
            n == self.min_size(),
    {
        match self {
            WireArgumentKind::String => 0,
            WireArgumentKind::Arr => 0,
            WireArgumentKind::NewIdSpecific => 8,
            _ => 4,
        }
    }

    /// Computes [`Self::is_variable`].
    pub fn has_variable_length(&self) -> (b: bool)
        ensures
            b == self.is_variable(),
    {
        match self {
            WireArgumentKind::String => true,
            WireArgumentKind::Arr => true,
            WireArgumentKind::NewIdSpecific => true,
            _ => false,
        }
    }
}

/// Appends `src` to `out`.
pub fn append_bytes(out: &mut Vec<u8>, src: &[u8])
    ensures
        final(out)@ == old(out)@ + src@,
{
    let mut i: usize = 0;
    while i < src.len()
        invariant
            i <= src@.len(),
            out@ == old(out)@ + src@.take(i as int),
        decreases src@.len() - i,
    {
        out.push(src[i]);
        i += 1;
        assert(out@ =~= old(out)@ + src@.take(i as int));
    }
    assert(src@.take(i as int) =~= src@);
}

impl WireArgument {
    /// The shape of the argument.
    pub fn kind(&self) -> (k: WireArgumentKind)
        ensures
            k == self@.kind(),
    {
        match self {
            WireArgument::Int(_) => WireArgumentKind::Int,
            WireArgument::UnInt(_) => WireArgumentKind::UnInt,
            WireArgument::FixedPrecision(_) => WireArgumentKind::FixedPrecision,
            WireArgument::String(_) => WireArgumentKind::String,
            WireArgument::Obj(_) => WireArgumentKind::Obj,
            WireArgument::NewId(_) => WireArgumentKind::NewId,
            WireArgument::NewIdSpecific(_, _, _) => WireArgumentKind::NewIdSpecific,
            WireArgument::Arr(_) => WireArgumentKind::Arr,
            WireArgument::FileDescriptor(_) => WireArgumentKind::FileDescriptor,
        }
    }

    /// The number of bytes that the argument takes in a message. Where that
    /// number is beyond `usize`, the largest `usize` is returned.
    pub fn size(&self) -> (n: usize)
        ensures
            n == if self@.size() <= usize::MAX { self@.size() as int } else { usize::MAX as int },
    {
        match self {
            WireArgument::String(x) => x.as_str().as_bytes().len(),
            WireArgument::NewIdSpecific(x, _, _) => {
                let text_len = x.as_str().as_bytes().len();
                if text_len > usize::MAX - 8 {
                    usize::MAX
                } else {
                    text_len + 8
                }
            },
            WireArgument::Arr(x) => x.len(),
            _ => 4,
        }
    }

    /// Appends the bytes of the argument to `out`.
    pub fn write_to(&self, out: &mut Vec<u8>, order: ByteOrder)
        ensures
            final(out)@ == old(out)@ + self@.bytes(order),
    {
        match self {
            WireArgument::Int(x) => put_word(out, to_unsigned(*x), order),
            WireArgument::UnInt(x) => put_word(out, *x, order),
            WireArgument::FixedPrecision(x) => put_word(out, *x, order),
            WireArgument::String(x) => append_bytes(out, x.as_str().as_bytes()),
            WireArgument::Obj(x) => put_word(out, *x, order),
            WireArgument::NewId(x) => put_word(out, *x, order),
            WireArgument::NewIdSpecific(x, y, z) => {
                append_bytes(out, x.as_str().as_bytes());
                put_word(out, *y, order);
                put_word(out, *z, order);
                assert(out@ =~= old(out)@ + self@.bytes(order));
            },
            WireArgument::Arr(items) => append_bytes(out, items.as_slice()),
            WireArgument::FileDescriptor(x) => put_word(out, to_unsigned(*x), order),
        }
    }

    /// The bytes of the argument.
    pub fn as_vec_u8(&self, order: ByteOrder) -> (bytes: Vec<u8>)
        ensures
            bytes@ == self@.bytes(order),
            bytes@.len() == self@.size(),
    {
        let mut out: Vec<u8> = Vec::new();
        self.write_to(&mut out, order);
        assert(out@ =~= self@.bytes(order));
        out
    }
}


/// A request or an event: the object it concerns, what is asked or
/// reported, and the arguments in their declared order.
#[derive(Debug, Clone, PartialEq, Eq)]
pub struct WireMessage {
    pub sender_id: Id,
    pub opcode: OpCode,
    pub args: Vec<WireArgument>,
}

/// What a message is, apart from how it is stored.
pub struct MessageValue {
    pub sender_id: Id,
    pub opcode: OpCode,
    pub args: Seq<ArgValue>,
}

/// The arguments of a stored list, each by its value.
pub open spec fn arg_values(args: Seq<WireArgument>) -> Seq<ArgValue> {
    args.map_values(|a: WireArgument| a@)
}

impl View for WireMessage {
    type V = MessageValue;

    open spec fn view(&self) -> MessageValue {
        MessageValue {
            sender_id: self.sender_id,
            opcode: self.opcode,
            args: arg_values(self.args@),
        }
    }
}

/// The kinds of a list of arguments, in their order.
pub open spec fn kinds_of(args: Seq<ArgValue>) -> Seq<WireArgumentKind> {
    args.map_values(|a: ArgValue| a.kind())
}

/// The bytes of a list of arguments: those of each, one after the other.
pub open spec fn args_bytes(args: Seq<ArgValue>, order: ByteOrder) -> Seq<u8>
    decreases args.len(),
{
    if args.len() == 0 {
        Seq::empty()
    } else {
        args[0].bytes(order) + args_bytes(args.skip(1), order)
    }
}

/// The sum of the sizes of a list of arguments.
pub open spec fn args_size(args: Seq<ArgValue>) -> nat
    decreases args.len(),
{
    if args.len() == 0 {
        0
    } else {
        args[0].size() + args_size(args.skip(1))
    }
}

/// The second word of a header: the length of the whole message in the high
/// half, the opcode in the low half.
pub open spec fn combined_word(total_len: u32, opcode: u32) -> u32 {
    (total_len << 16) | (opcode & 0xFFFF)
}

/// The length that the second word of a header declares.
pub open spec fn declared_len(word: u32) -> u32 {
    word >> 16
}

/// The opcode that the second word of a header holds.
pub open spec fn declared_opcode(word: u32) -> u32 {
    word & 0xFFFF
}

/// The halves of a combined word are what it was made from.
pub proof fn lemma_combined_word(total_len: u32, opcode: u32)
    requires
        total_len <= 0xFFFF,
        opcode <= 0xFFFF,
    ensures
        declared_len(combined_word(total_len, opcode)) == total_len,
        declared_opcode(combined_word(total_len, opcode)) == opcode,
{
    assert(((total_len << 16) | (opcode & 0xFFFF)) >> 16 == total_len) by (bit_vector)
        requires
            total_len <= 0xFFFF,
    ;
    assert(((total_len << 16) | (opcode & 0xFFFF)) & 0xFFFF == opcode) by (bit_vector)
        requires
            opcode <= 0xFFFF,
    ;
}

/// The halves of a word are 16 bits wide.
pub proof fn lemma_word_halves(word: u32)
    ensures
        declared_len(word) <= 0xFFFF,
        declared_opcode(word) <= 0xFFFF,
{
    assert(word >> 16 <= 0xFFFF) by (bit_vector);
    assert(word & 0xFFFF <= 0xFFFF) by (bit_vector);
}

impl MessageValue {
    /// The length of the whole message in bytes, header included.
    pub open spec fn wire_len(self) -> nat {
        8 + args_size(self.args)
    }

    /// Whether the message can be put on the wire: its length must fit the
    /// 16 bits that a header has for it.
    pub open spec fn fits(self) -> bool {
        self.wire_len() <= 0xFFFF
    }

    /// The eight bytes of the header.
    pub open spec fn header(self, order: ByteOrder) -> Seq<u8> {
        word_bytes(self.sender_id, order) + word_bytes(
            combined_word(self.wire_len() as u32, (self.opcode % 0x1_0000) as u32),
            order,
        )
    }

    /// The bytes of the whole message.
    pub open spec fn encoding(self, order: ByteOrder) -> Seq<u8> {
        self.header(order) + args_bytes(self.args, order)
    }
}

/// The bytes of a list are as many as the sizes of its arguments sum to.
pub proof fn lemma_args_bytes_len(args: Seq<ArgValue>, order: ByteOrder)
    ensures
        args_bytes(args, order).len() == args_size(args),
    decreases args.len(),
{
    if args.len() > 0 {
        lemma_args_bytes_len(args.skip(1), order);
    }
}

/// One more argument at the end adds its bytes at the end.
pub proof fn lemma_args_bytes_push(args: Seq<ArgValue>, last: ArgValue, order: ByteOrder)
    ensures
        args_bytes(args.push(last), order) == args_bytes(args, order) + last.bytes(order),
        args_size(args.push(last)) == args_size(args) + last.size(),
    decreases args.len(),
{
    if args.len() == 0 {
        let rest = args.push(last).skip(1);
        assert(rest =~= Seq::<ArgValue>::empty());
        assert(args_bytes(rest, order) =~= Seq::<u8>::empty());
        assert(args_size(rest) == 0);
        assert(args_bytes(args.push(last), order) =~= last.bytes(order));
        assert(args_bytes(args, order) + last.bytes(order) =~= last.bytes(order));
    } else {
        assert(args.push(last).skip(1) =~= args.skip(1).push(last));
        lemma_args_bytes_push(args.skip(1), last, order);
        assert(args_bytes(args.push(last), order) =~= args_bytes(args, order) + last.bytes(
            order,
        ));
    }
}

impl WireMessage {
    /// The kinds of the arguments, in their order: the schema under which
    /// the bytes of the message are read.
    pub fn schema(&self) -> (kinds: Vec<WireArgumentKind>)
        ensures
            kinds@ == kinds_of(self@.args),
    {
        let mut kinds: Vec<WireArgumentKind> = Vec::new();
        let mut i: usize = 0;
        while i < self.args.len()
            invariant
                i <= self.args@.len(),
                kinds@ == kinds_of(self@.args.take(i as int)),
            decreases self.args@.len() - i,
        {
            kinds.push(self.args[i].kind());
            i += 1;
            assert(kinds@ =~= kinds_of(self@.args.take(i as int)));
        }
        assert(self@.args.take(i as int) =~= self@.args);
        kinds
    }

    /// The bytes of the message: an 8-byte header and the bytes of each
    /// argument in order. A message that is longer than a header can
    /// declare is refused.
    pub fn encode(&self, order: ByteOrder) -> (result: Result<Vec<u8>, WaylandError>)
        ensures
            self@.fits() ==> result is Ok,
            result matches Ok(bytes) ==> self@.fits() && bytes@ == self@.encoding(order),
            result matches Err(e) ==> e == WaylandError::RecvLenBad,
    {
        let mut payload: Vec<u8> = Vec::new();
        let mut i: usize = 0;
        while i < self.args.len()
            invariant
                i <= self.args@.len(),
                payload@ == args_bytes(arg_values(self.args@).take(i as int), order),
            decreases self.args@.len() - i,
        {
            let ghost before = arg_values(self.args@).take(i as int);
            self.args[i].write_to(&mut payload, order);
            proof {
                lemma_args_bytes_push(before, self.args@[i as int]@, order);
                assert(arg_values(self.args@).take(i + 1) =~= before.push(self.args@[i as int]@));
            }
            i += 1;
        }
        proof {
            assert(arg_values(self.args@).take(i as int) =~= self@.args);
            lemma_args_bytes_len(self@.args, order);
        }
        if payload.len() > MAX_MESSAGE_LEN - HEADER_LEN {
            return Err(WaylandError::RecvLenBad);
        }
        let total: u32 = (payload.len() + HEADER_LEN) as u32;
        let low: u32 = (self.opcode % 0x1_0000) as u32;
        let word: u32 = (total << 16) | (low & 0xFFFF);
        let mut out: Vec<u8> = Vec::new();
        put_word(&mut out, self.sender_id, order);
        put_word(&mut out, word, order);
        append_bytes(&mut out, payload.as_slice());
        assert(out@ =~= self@.encoding(order));
        Ok(out)
    }
}


/// The least number of bytes that arguments of the given kinds take.
pub open spec fn min_total(schema: Seq<WireArgumentKind>) -> nat
    decreases schema.len(),
{
    if schema.len() == 0 {
        0
    } else {
        schema[0].min_size() + min_total(schema.skip(1))
    }
}

/// The argument of the given kind that `bytes`, taken whole, stand for.
pub open spec fn decode_arg(bytes: Seq<u8>, kind: WireArgumentKind, order: ByteOrder) -> Option<
    ArgValue,
> {
    match kind {
        WireArgumentKind::String => if valid_utf8(bytes) {
            Some(ArgValue::Text(decode_utf8(bytes)))
        } else {
            None
        },
        WireArgumentKind::Arr => Some(ArgValue::Arr(bytes)),
        WireArgumentKind::NewIdSpecific => {
            let text = bytes.take(bytes.len() - 8);
            if bytes.len() >= 8 && valid_utf8(text) {
                Some(
                    ArgValue::NewIdSpecific(
                        decode_utf8(text),
                        word_value(bytes.subrange(bytes.len() - 8, bytes.len() - 4), order),
                        word_value(bytes.subrange(bytes.len() - 4, bytes.len() as int), order),
                    ),
                )
            } else {
                None
            }
        },
        _ => if bytes.len() == 4 {
            let word = word_value(bytes, order);
            Some(
                match kind {
                    WireArgumentKind::Int => ArgValue::Int(signed_of(word)),
                    WireArgumentKind::UnInt => ArgValue::UnInt(word),
                    WireArgumentKind::FixedPrecision => ArgValue::FixedPrecision(word),
                    WireArgumentKind::Obj => ArgValue::Obj(word),
                    WireArgumentKind::NewId => ArgValue::NewId(word),
                    _ => ArgValue::FileDescriptor(signed_of(word)),
                },
            )
        } else {
            None
        },
    }
}

/// The number of bytes that the first argument of a schema takes out of
/// `len` bytes: four for a number, and for an argument of variable length
/// all that the rest of the schema does not need.
pub open spec fn first_take(len: nat, schema: Seq<WireArgumentKind>) -> int
    recommends
        schema.len() > 0,
{
    if schema[0].is_variable() {
        len - min_total(schema.skip(1))
    } else {
        4
    }
}

/// The arguments that `bytes` stand for under a schema, if they fit it.
pub open spec fn decode_args(
    bytes: Seq<u8>,
    schema: Seq<WireArgumentKind>,
    order: ByteOrder,
) -> Option<Seq<ArgValue>>
    decreases schema.len(),
{
    if schema.len() == 0 {
        if bytes.len() == 0 {
            Some(Seq::empty())
        } else {
            None
        }
    } else if bytes.len() < min_total(schema) {
        None
    } else {
        let n = first_take(bytes.len(), schema);
        match (
            decode_arg(bytes.take(n), schema[0], order),
            decode_args(bytes.skip(n), schema.skip(1), order),
        ) {
            (Some(first), Some(rest)) => Some(seq![first] + rest),
            _ => None,
        }
    }
}

/// The message that `bytes` stand for under a schema, or the reason why
/// they stand for none.
pub open spec fn decode_message(
    bytes: Seq<u8>,
    schema: Seq<WireArgumentKind>,
    order: ByteOrder,
) -> Result<MessageValue, WaylandError> {
    if bytes.len() < 8 {
        Err(WaylandError::RecvLenBad)
    } else {
        let word = word_value(bytes.subrange(4, 8), order);
        if declared_len(word) != bytes.len() {
            Err(WaylandError::RecvLenBad)
        } else {
            match decode_args(bytes.skip(8), schema, order) {
                Some(args) => Ok(
                    MessageValue {
                        sender_id: word_value(bytes.subrange(0, 4), order),
                        opcode: declared_opcode(word) as usize,
                        args,
                    },
                ),
                None => Err(WaylandError::ParseError),
            }
        }
    }
}

/// Reads bytes as text.
///
/// Calls `std::str::from_utf8`. The claim is that it accepts exactly the
/// byte strings that are valid UTF-8, and that the text it returns is made
/// of the bytes it was given.
#[verifier::external_body]
fn text_of(bytes: &[u8]) -> (text: Option<&str>)
    ensures
        text is Some <==> valid_utf8(bytes@),
        text matches Some(t) ==> encode_utf8(t@) == bytes@,
{
    match std::str::from_utf8(bytes) {
        Ok(t) => Some(t),
        Err(_) => None,
    }
}

/// Copies a slice into a vector.
pub(crate) fn copy_of(src: &[u8]) -> (out: Vec<u8>)
    ensures
        out@ == src@,
{
    let mut out: Vec<u8> = Vec::new();
    append_bytes(&mut out, src);
    assert(out@ =~= src@);
    out
}

/// Decodes one argument: `bytes`, taken whole, read as an argument of the
/// kind that the caller expects.
pub fn decode_event_payload(bytes: &[u8], kind: WireArgumentKind, order: ByteOrder) -> (result:
    Result<WireArgument, WaylandError>)
    ensures
        match result {
            Ok(arg) => decode_arg(bytes@, kind, order) == Some(arg@),
            Err(e) => e == WaylandError::ParseError && decode_arg(bytes@, kind, order) is None,
        },
{
    broadcast use encode_utf8_decode_utf8;

    let len = bytes.len();
    match kind {
        WireArgumentKind::String => {
            match text_of(bytes) {
                Some(t) => Ok(WireArgument::String(t.to_owned())),
                None => Err(WaylandError::ParseError),
            }
        },
        WireArgumentKind::Arr => Ok(WireArgument::Arr(copy_of(bytes))),
        WireArgumentKind::NewIdSpecific => {
            if len < 8 {
                return Err(WaylandError::ParseError);
            }
            let text_bytes = slice_subrange(bytes, 0, len - 8);
            assert(text_bytes@ =~= bytes@.take(bytes@.len() - 8));
            match text_of(text_bytes) {
                Some(t) => {
                    let version = get_word(bytes, len - 8, order);
                    let id = get_word(bytes, len - 4, order);
                    Ok(WireArgument::NewIdSpecific(t.to_owned(), version, id))
                },
                None => Err(WaylandError::ParseError),
            }
        },
        _ => {
            if len != 4 {
                return Err(WaylandError::ParseError);
            }
            let word = get_word(bytes, 0, order);
            assert(bytes@.subrange(0, 4) =~= bytes@);
            Ok(
                match kind {
                    WireArgumentKind::Int => WireArgument::Int(to_signed(word)),
                    WireArgumentKind::UnInt => WireArgument::UnInt(word),
                    WireArgumentKind::FixedPrecision => WireArgument::FixedPrecision(word),
                    WireArgumentKind::Obj => WireArgument::Obj(word),
                    WireArgumentKind::NewId => WireArgument::NewId(word),
                    _ => WireArgument::FileDescriptor(to_signed(word)),
                },
            )
        },
    }
}


/// What is left of a schema needs no more room than the whole.
pub proof fn lemma_min_total_skip(schema: Seq<WireArgumentKind>, from: int)
    requires
        0 <= from <= schema.len(),
    ensures
        min_total(schema.skip(from)) <= min_total(schema),
    decreases from,
{
    if from == 0 {
        assert(schema.skip(0) =~= schema);
    } else {
        lemma_min_total_skip(schema.skip(1), from - 1);
        assert(schema.skip(1).skip(from - 1) =~= schema.skip(from));
    }
}

/// A result of decoding the rest, with what was decoded before put in front.
pub open spec fn after(done: Seq<ArgValue>, rest: Option<Seq<ArgValue>>) -> Option<
    Seq<ArgValue>,
> {
    match rest {
        Some(r) => Some(done + r),
        None => None,
    }
}

/// Decodes the arguments of a message: `bytes`, taken whole, read under the
/// schema that the caller expects.
pub fn decode_arguments(bytes: &[u8], schema: &[WireArgumentKind], order: ByteOrder) -> (result:
    Result<Vec<WireArgument>, WaylandError>)
    ensures
        match result {
            Ok(args) => decode_args(bytes@, schema@, order) == Some(arg_values(args@)),
            Err(e) => e == WaylandError::ParseError && decode_args(bytes@, schema@, order)
                is None,
        },
{
    let len = bytes.len();
    let count = schema.len();
    let mut need: usize = 0;
    let mut j: usize = count;
    while j > 0
        invariant
            j <= count,
            count == schema@.len(),
            len == bytes@.len(),
            need == min_total(schema@.skip(j as int)),
            need <= len,
        decreases j,
    {
        j -= 1;
        let least = schema[j].least_size();
        proof {
            assert(schema@.skip(j as int).skip(1) =~= schema@.skip(j + 1));
            lemma_min_total_skip(schema@, j as int);
        }
        if least > len - need {
            return Err(WaylandError::ParseError);
        }
        need += least;
    }
    assert(schema@.skip(0) =~= schema@);
    let mut out: Vec<WireArgument> = Vec::new();
    let mut i: usize = 0;
    let mut off: usize = 0;
    assert(bytes@.skip(0) =~= bytes@);
    assert(arg_values(out@) =~= Seq::<ArgValue>::empty());
    assert(after(arg_values(out@), decode_args(bytes@, schema@, order)) == decode_args(
        bytes@,
        schema@,
        order,
    )) by {
        match decode_args(bytes@, schema@, order) {
            Some(r) => assert(Seq::<ArgValue>::empty() + r =~= r),
            None => {},
        }
    }
    while i < count
        invariant
            i <= count,
            count == schema@.len(),
            len == bytes@.len(),
            off <= len,
            need == min_total(schema@.skip(i as int)),
            need <= len - off,
            decode_args(bytes@, schema@, order) == after(
                arg_values(out@),
                decode_args(bytes@.skip(off as int), schema@.skip(i as int), order),
            ),
        decreases count - i,
    {
        let kind = schema[i];
        let ghost tail = bytes@.skip(off as int);
        let ghost left = schema@.skip(i as int);
        assert(left[0] == kind);
        assert(left.skip(1) =~= schema@.skip(i + 1));
        let rest_need = need - kind.least_size();
        let taken = if kind.has_variable_length() {
            len - off - rest_need
        } else {
            4
        };
        assert(taken == first_take(tail.len(), left));
        let part = slice_subrange(bytes, off, off + taken);
        assert(part@ =~= tail.take(taken as int));
        assert(tail.skip(taken as int) =~= bytes@.skip(off + taken));
        match decode_event_payload(part, kind, order) {
            Ok(arg) => {
                let ghost done = arg_values(out@);
                out.push(arg);
                proof {
                    assert(arg_values(out@) =~= done.push(arg@));
                    match decode_args(bytes@.skip(off + taken), schema@.skip(i + 1), order) {
                        Some(r) => {
                            assert(done + (seq![arg@] + r) =~= done.push(arg@) + r);
                        },
                        None => {},
                    }
                }
                off += taken;
                i += 1;
                need = rest_need;
            },
            Err(e) => {
                return Err(e);
            },
        }
    }
    assert(schema@.skip(i as int) =~= Seq::<WireArgumentKind>::empty());
    if off != len {
        return Err(WaylandError::ParseError);
    }
    assert(bytes@.skip(off as int).len() == 0);
    assert(arg_values(out@) + Seq::<ArgValue>::empty() =~= arg_values(out@));
    Ok(out)
}

impl WireMessage {
    /// Decodes a message: `bytes`, taken whole, read as a header and the
    /// arguments that the schema expects.
    pub fn decode(bytes: &[u8], schema: &[WireArgumentKind], order: ByteOrder) -> (result: Result<
        WireMessage,
        WaylandError,
    >)
        ensures
            match result {
                Ok(msg) => decode_message(bytes@, schema@, order) == Ok::<
                    MessageValue,
                    WaylandError,
                >(msg@),
                Err(e) => decode_message(bytes@, schema@, order) == Err::<
                    MessageValue,
                    WaylandError,
                >(e),
            },
    {
        let len = bytes.len();
        if len < HEADER_LEN {
            return Err(WaylandError::RecvLenBad);
        }
        let sender_id = get_word(bytes, 0, order);
        let word = get_word(bytes, 4, order);
        proof {
            lemma_word_halves(word);
        }
        let declared: u32 = word >> 16;
        if declared as usize != len {
            return Err(WaylandError::RecvLenBad);
        }
        let payload = slice_subrange(bytes, HEADER_LEN, len);
        assert(payload@ =~= bytes@.skip(8));
        let opcode: usize = (word & 0xFFFF) as usize;
        match decode_arguments(payload, schema, order) {
            Ok(args) => Ok(WireMessage { sender_id, opcode, args }),
            Err(e) => Err(e),
        }
    }
}

impl ArgValue {
    /// No argument is shorter than its kind allows.
    pub proof fn lemma_size_at_least_min(self)
        ensures
            self.size() >= self.kind().min_size(),
            !self.kind().is_variable() ==> self.size() == 4,
    {
    }

    /// The bytes of an argument, read as its kind, give the argument back.
    pub proof fn lemma_decode_of_bytes(self, order: ByteOrder)
        ensures
            decode_arg(self.bytes(order), self.kind(), order) == Some(self),
    {
        broadcast use encode_utf8_decode_utf8, encode_utf8_valid_utf8;

        let b = self.bytes(order);
        match self {
            ArgValue::Text(s) => {},
            ArgValue::Arr(a) => {},
            ArgValue::NewIdSpecific(s, v, id) => {
                lemma_word_round_trip(v, order);
                lemma_word_round_trip(id, order);
                assert(b.take(b.len() - 8) =~= encode_utf8(s));
                assert(b.subrange(b.len() - 8, b.len() - 4) =~= word_bytes(v, order));
                assert(b.subrange(b.len() - 4, b.len() as int) =~= word_bytes(id, order));
            },
            ArgValue::Int(x) => {
                lemma_word_round_trip(unsigned_of(x), order);
                lemma_sign_round_trip(x);
            },
            ArgValue::FileDescriptor(x) => {
                lemma_word_round_trip(unsigned_of(x), order);
                lemma_sign_round_trip(x);
            },
            ArgValue::UnInt(x) => lemma_word_round_trip(x, order),
            ArgValue::FixedPrecision(x) => lemma_word_round_trip(x, order),
            ArgValue::Obj(x) => lemma_word_round_trip(x, order),
            ArgValue::NewId(x) => lemma_word_round_trip(x, order),
        }
    }
}

/// Whether every argument of the list takes the least room that its kind
/// allows: no text, no bytes of an array.
pub open spec fn plain(args: Seq<ArgValue>) -> bool {
    forall|i: int| 0 <= i < args.len() ==> (#[trigger] args[i]).size() == args[i].kind().min_size()
}

/// Whether a reader can tell where each argument of the list ends: behind
/// the first argument of variable length, no argument holds text or bytes.
pub open spec fn unambiguous(args: Seq<ArgValue>) -> bool {
    forall|i: int, j: int|
        0 <= i < j < args.len() && (#[trigger] args[i]).kind().is_variable() ==> (
        #[trigger] args[j]).size() == args[j].kind().min_size()
}

/// A plain list takes exactly the room that its kinds need at least.
pub proof fn lemma_plain_size(args: Seq<ArgValue>)
    requires
        plain(args),
    ensures
        args_size(args) == min_total(kinds_of(args)),
    decreases args.len(),
{
    if args.len() > 0 {
        let rest = args.skip(1);
        assert forall|i: int| 0 <= i < rest.len() implies (#[trigger] rest[i]).size()
            == rest[i].kind().min_size() by {
            assert(rest[i] == args[i + 1]);
        }
        lemma_plain_size(rest);
        assert(kinds_of(args).skip(1) =~= kinds_of(rest));
    }
}

/// Any list takes at least the room that its kinds need.
pub proof fn lemma_size_at_least_min_total(args: Seq<ArgValue>)
    ensures
        args_size(args) >= min_total(kinds_of(args)),
    decreases args.len(),
{
    if args.len() > 0 {
        let rest = args.skip(1);
        lemma_size_at_least_min_total(rest);
        args[0].lemma_size_at_least_min();
        assert(kinds_of(args).skip(1) =~= kinds_of(rest));
    }
}

/// The bytes of an unambiguous list, read under the kinds of the list, give
/// the list back.
pub proof fn lemma_decode_args_of_bytes(args: Seq<ArgValue>, order: ByteOrder)
    requires
        unambiguous(args),
    ensures
        decode_args(args_bytes(args, order), kinds_of(args), order) == Some(args),
    decreases args.len(),
{
    let bytes = args_bytes(args, order);
    let schema = kinds_of(args);
    if args.len() == 0 {
        assert(bytes.len() == 0);
    } else {
        let first = args[0];
        let rest = args.skip(1);
        let rest_bytes = args_bytes(rest, order);
        assert(schema.skip(1) =~= kinds_of(rest));
        assert(schema[0] == first.kind());
        first.lemma_size_is_len(order);
        first.lemma_size_at_least_min();
        lemma_args_bytes_len(rest, order);
        lemma_args_bytes_len(args, order);
        lemma_size_at_least_min_total(args);
        assert forall|i: int, j: int|
            0 <= i < j < rest.len() && (#[trigger] rest[i]).kind().is_variable() implies (
        #[trigger] rest[j]).size() == rest[j].kind().min_size() by {
            assert(rest[i] == args[i + 1]);
            assert(rest[j] == args[j + 1]);
        }
        if first.kind().is_variable() {
            assert forall|i: int| 0 <= i < rest.len() implies (#[trigger] rest[i]).size()
                == rest[i].kind().min_size() by {
                assert(rest[i] == args[i + 1]);
            }
            lemma_plain_size(rest);
        }
        let n = first_take(bytes.len(), schema);
        assert(n == first.size());
        assert(bytes.take(n) =~= first.bytes(order));
        assert(bytes.skip(n) =~= rest_bytes);
        first.lemma_decode_of_bytes(order);
        lemma_decode_args_of_bytes(rest, order);
        assert(seq![first] + rest =~= args);
    }
}

/// Decoding undoes encoding: the bytes of a message that fits a header,
/// whose opcode fits 16 bits and whose arguments are unambiguous, read
/// under the kinds of its arguments, stand for that same message.
pub proof fn lemma_decode_of_encoding(msg: MessageValue, order: ByteOrder)
    requires
        msg.fits(),
        msg.opcode <= 0xFFFF,
        unambiguous(msg.args),
    ensures
        decode_message(msg.encoding(order), kinds_of(msg.args), order) == Ok::<
            MessageValue,
            WaylandError,
        >(msg),
{
    let bytes = msg.encoding(order);
    let total = msg.wire_len() as u32;
    let low = (msg.opcode % 0x1_0000) as u32;
    let word = combined_word(total, low);
    lemma_args_bytes_len(msg.args, order);
    lemma_word_round_trip(msg.sender_id, order);
    lemma_word_round_trip(word, order);
    lemma_combined_word(total, low);
    assert(bytes.subrange(0, 4) =~= word_bytes(msg.sender_id, order));
    assert(bytes.subrange(4, 8) =~= word_bytes(word, order));
    assert(bytes.skip(8) =~= args_bytes(msg.args, order));
    lemma_decode_args_of_bytes(msg.args, order);
}

/// The length that the header of an encoded message declares is 8 plus the
/// sum of the sizes of the arguments.
pub proof fn lemma_declared_length(msg: MessageValue, order: ByteOrder)
    requires
        msg.fits(),
    ensures
        msg.encoding(order).len() == 8 + args_size(msg.args),
        declared_len(word_value(msg.encoding(order).subrange(4, 8), order)) == 8 + args_size(
            msg.args,
        ),
{
    let bytes = msg.encoding(order);
    let total = msg.wire_len() as u32;
    let low = (msg.opcode % 0x1_0000) as u32;
    let word = combined_word(total, low);
    lemma_args_bytes_len(msg.args, order);
    lemma_word_round_trip(msg.sender_id, order);
    lemma_word_round_trip(word, order);
    lemma_combined_word(total, low);
    assert(bytes.subrange(4, 8) =~= word_bytes(word, order));
}

} // verus!
