//! The binary wire format of the list responses: two Protocol Buffers
//! messages, `CardList` and `CardHistoryList`, laid out field by field.

use crate::color::{pack, packed};
use crate::models::ShowGetCardResponse;
use crate::timestamp::{parse_timestamp, plain_instant, rfc3339_instant, timestamp_of};
use vstd::prelude::*;
use vstd::std_specs::convert::FromSpecImpl;
use vstd::utf8::encode_utf8;

verus! {

/// The base-128 encoding of `value`: seven bits a byte, least significant
/// group first, the high bit set on every byte but the last.
pub open spec fn varint(value: nat) -> Seq<u8>
    decreases value,
{
    if value < 128 {
        seq![value as u8]
    } else {
        seq![(value % 128 + 128) as u8] + varint(value / 128)
    }
}

/// The 64-bit two's complement of `value`, as a natural number.
pub open spec fn unsigned(value: int) -> nat {
    if value < 0 {
        (value + 0x1_0000_0000_0000_0000) as nat
    } else {
        value as nat
    }
}

/// The key in front of a field: its number and its wire type (0 for a
/// varint, 2 for a length-delimited value).
pub open spec fn field_key(tag: nat, wire_type: nat) -> Seq<u8> {
    varint(tag * 8 + wire_type)
}

/// A length-delimited field: key, length of the body, body.
pub open spec fn delimited_field(tag: nat, body: Seq<u8>) -> Seq<u8> {
    field_key(tag, 2) + varint(body.len()) + body
}

/// A string field: the text goes out as its UTF-8 bytes.
pub open spec fn string_field(tag: nat, text: Seq<char>) -> Seq<u8> {
    delimited_field(tag, encode_utf8(text))
}

/// An integer field: key, then the varint of the value's 64-bit two's
/// complement.
pub open spec fn integer_field(tag: nat, value: int) -> Seq<u8> {
    field_key(tag, 0) + varint(unsigned(value))
}

/// A string field that is left out when the text is empty.
pub open spec fn string_unless_empty(tag: nat, text: Seq<char>) -> Seq<u8> {
    if text.len() == 0 {
        Seq::empty()
    } else {
        string_field(tag, text)
    }
}

/// An integer field that is left out when the value is zero.
pub open spec fn integer_unless_zero(tag: nat, value: int) -> Seq<u8> {
    if value == 0 {
        Seq::empty()
    } else {
        integer_field(tag, value)
    }
}

/// An integer field that is written whenever a value is present, zero
/// included.
pub open spec fn integer_if_present(tag: nat, value: Option<i64>) -> Seq<u8> {
    match value {
        Some(v) => integer_field(tag, v as int),
        None => Seq::empty(),
    }
}

/// The largest field number the format allows.
pub const MAX_TAG: u32 = 0x1FFF_FFFF;

/// Appends the varint of `value` to `buf`.
///
/// Calls `prost::encoding::encode_varint`, which writes `value` in LEB128
/// form: the contract states those bytes.
#[verifier::external_body]
fn put_varint(buf: &mut Vec<u8>, value: u64)
    ensures
        final(buf)@ == old(buf)@ + varint(value as nat),
{
    prost::encoding::encode_varint(value, buf)
}

/// Appends the key of a length-delimited field to `buf`.
///
/// Calls `prost::encoding::encode_key` with the wire type
/// `LengthDelimited`, which writes the varint of the field number shifted
/// left by three, joined with the wire type's number, 2. It asserts that
/// the field number is between 1 and `MAX_TAG`.
#[verifier::external_body]
fn put_delimited_key(buf: &mut Vec<u8>, tag: u32)
    requires
        1 <= tag <= MAX_TAG,
    ensures
        final(buf)@ == old(buf)@ + field_key(tag as nat, 2),
{
    prost::encoding::encode_key(tag, prost::encoding::WireType::LengthDelimited, buf)
}

/// Appends a string field to `buf`.
///
/// Calls `prost::encoding::string::encode`, which writes the key of a
/// length-delimited field, the varint of the string's length in bytes,
/// and the string's bytes.
#[verifier::external_body]
fn put_string(buf: &mut Vec<u8>, tag: u32, value: &String)
    requires
        1 <= tag <= MAX_TAG,
    ensures
        final(buf)@ == old(buf)@ + string_field(tag as nat, value@),
{
    prost::encoding::string::encode(tag, value, buf)
}

/// Appends a 32-bit integer field to `buf`.
///
/// Calls `prost::encoding::int32::encode`, which writes the key of a
/// varint field and the varint of the value cast to `u64`, that is,
/// sign-extended to 64 bits.
#[verifier::external_body]
fn put_int32(buf: &mut Vec<u8>, tag: u32, value: i32)
    requires
        1 <= tag <= MAX_TAG,
    ensures
        final(buf)@ == old(buf)@ + integer_field(tag as nat, value as int),
{
    prost::encoding::int32::encode(tag, &value, buf)
}

/// Appends a 64-bit integer field to `buf`.
///
/// Calls `prost::encoding::int64::encode`, which writes the key of a
/// varint field and the varint of the value cast to `u64`.
#[verifier::external_body]
fn put_int64(buf: &mut Vec<u8>, tag: u32, value: i64)
    requires
        1 <= tag <= MAX_TAG,
    ensures
        final(buf)@ == old(buf)@ + integer_field(tag as nat, value as int),
{
    prost::encoding::int64::encode(tag, &value, buf)
}

/// Appends `body` to `buf` as the length-delimited field `tag`, and
/// leaves `body` empty.
fn put_message(buf: &mut Vec<u8>, tag: u32, body: &mut Vec<u8>)
    requires
        1 <= tag <= MAX_TAG,
    ensures
        final(buf)@ == old(buf)@ + delimited_field(tag as nat, old(body)@),
        final(body)@.len() == 0,
{
    put_delimited_key(buf, tag);
    put_varint(buf, body.len() as u64);
    buf.append(body);
    assert(buf@ =~= old(buf)@ + delimited_field(tag as nat, old(body)@));
}

/// One card of a `CardList`: what is shown of it, and its balance where
/// the card has a running state.
pub struct Card {
    pub card_id: String,
    pub card_name: String,
    pub card_bank: String,
    pub card_primary_color: i32,
    pub card_secondary_color: i32,
    pub last_total_due: Option<i64>,
    pub last_delta: Option<i64>,
}

/// What a `Card` message holds, as plain values.
pub struct CardMessage {
    pub card_id: Seq<char>,
    pub card_name: Seq<char>,
    pub card_bank: Seq<char>,
    pub card_primary_color: i32,
    pub card_secondary_color: i32,
    pub last_total_due: Option<i64>,
    pub last_delta: Option<i64>,
}

impl View for Card {
    type V = CardMessage;

    open spec fn view(&self) -> CardMessage {
        CardMessage {
            card_id: self.card_id@,
            card_name: self.card_name@,
            card_bank: self.card_bank@,
            card_primary_color: self.card_primary_color,
            card_secondary_color: self.card_secondary_color,
            last_total_due: self.last_total_due,
            last_delta: self.last_delta,
        }
    }
}

impl CardMessage {
    /// The bytes of a `Card`: fields 1 to 7 in order. Empty strings and
    /// zero colours are left out; a balance is written whenever present.
    pub open spec fn bytes(self) -> Seq<u8> {
        string_unless_empty(1, self.card_id) + string_unless_empty(2, self.card_name)
            + string_unless_empty(3, self.card_bank) + integer_unless_zero(
            4,
            self.card_primary_color as int,
        ) + integer_unless_zero(5, self.card_secondary_color as int) + integer_if_present(
            6,
            self.last_total_due,
        ) + integer_if_present(7, self.last_delta)
    }
}

/// The bytes of a `CardList`: each card as field 1, in order.
pub open spec fn card_list_bytes(cards: Seq<CardMessage>) -> Seq<u8>
    decreases cards.len(),
{
    if cards.len() == 0 {
        Seq::empty()
    } else {
        card_list_bytes(cards.drop_last()) + delimited_field(1, cards.last().bytes())
    }
}

/// The cards of a list, each by its view.
pub open spec fn card_messages(cards: Seq<Card>) -> Seq<CardMessage> {
    cards.map_values(|c: Card| c@)
}

/// Appends the string field `tag` to `buf`, unless `value` is empty.
fn put_string_unless_empty(buf: &mut Vec<u8>, tag: u32, value: &String)
    requires
        1 <= tag <= MAX_TAG,
    ensures
        final(buf)@ == old(buf)@ + string_unless_empty(tag as nat, value@),
{
    if !value.as_str().is_empty() {
        put_string(buf, tag, value);
    }
    assert(buf@ =~= old(buf)@ + string_unless_empty(tag as nat, value@));
}

/// Appends the integer field `tag` to `buf`, unless `value` is zero.
fn put_int32_unless_zero(buf: &mut Vec<u8>, tag: u32, value: i32)
    requires
        1 <= tag <= MAX_TAG,
    ensures
        final(buf)@ == old(buf)@ + integer_unless_zero(tag as nat, value as int),
{
    if value != 0 {
        put_int32(buf, tag, value);
    }
    assert(buf@ =~= old(buf)@ + integer_unless_zero(tag as nat, value as int));
}

/// Appends the integer field `tag` to `buf`, unless `value` is zero.
fn put_int64_unless_zero(buf: &mut Vec<u8>, tag: u32, value: i64)
    requires
        1 <= tag <= MAX_TAG,
    ensures
        final(buf)@ == old(buf)@ + integer_unless_zero(tag as nat, value as int),
{
    if value != 0 {
        put_int64(buf, tag, value);
    }
    assert(buf@ =~= old(buf)@ + integer_unless_zero(tag as nat, value as int));
}

/// Appends the integer field `tag` to `buf` where a value is present.
fn put_int64_if_present(buf: &mut Vec<u8>, tag: u32, value: Option<i64>)
    requires
        1 <= tag <= MAX_TAG,
    ensures
        final(buf)@ == old(buf)@ + integer_if_present(tag as nat, value),
{
    match value {
        Some(v) => {
            put_int64(buf, tag, v);
        },
        None => {},
    }
    assert(buf@ =~= old(buf)@ + integer_if_present(tag as nat, value));
}

impl Card {
    /// Appends the bytes of this card to `buf`.
    pub fn encode(&self, buf: &mut Vec<u8>)
        ensures
            final(buf)@ == old(buf)@ + self@.bytes(),
    {
        put_string_unless_empty(buf, 1, &self.card_id);
        put_string_unless_empty(buf, 2, &self.card_name);
        put_string_unless_empty(buf, 3, &self.card_bank);
        put_int32_unless_zero(buf, 4, self.card_primary_color);
        put_int32_unless_zero(buf, 5, self.card_secondary_color);
        put_int64_if_present(buf, 6, self.last_total_due);
        put_int64_if_present(buf, 7, self.last_delta);
        assert(buf@ =~= old(buf)@ + self@.bytes());
    }
}

/// The list of a user's cards.
pub struct CardList {
    pub cards: Vec<Card>,
}

impl CardList {
    /// The cards of this list, each by its view.
    pub open spec fn messages(&self) -> Seq<CardMessage> {
        card_messages(self.cards@)
    }

    /// Appends the bytes of this list to `buf`.
    pub fn encode(&self, buf: &mut Vec<u8>)
        ensures
            final(buf)@ == old(buf)@ + card_list_bytes(self.messages()),
    {
        let mut i: usize = 0;
        assert(self.messages().take(0) =~= Seq::empty());
        while i < self.cards.len()
            invariant
                i <= self.cards.len(),
                buf@ == old(buf)@ + card_list_bytes(self.messages().take(i as int)),
            decreases self.cards.len() - i,
        {
            let mut body: Vec<u8> = Vec::new();
            self.cards[i].encode(&mut body);
            assert(body@ =~= self.cards[i as int]@.bytes());
            put_message(buf, 1, &mut body);
            proof {
                let upto = self.messages().take(i + 1);
                assert(upto.drop_last() =~= self.messages().take(i as int));
                assert(upto.last() == self.cards[i as int]@);
                assert(buf@ =~= old(buf)@ + card_list_bytes(upto));
            }
            i += 1;
        }
        assert(self.messages().take(i as int) =~= self.messages());
    }

    /// The bytes of this list.
    pub fn encode_to_vec(&self) -> (bytes: Vec<u8>)
        ensures
            bytes@ == card_list_bytes(self.messages()),
    {
        let mut buf: Vec<u8> = Vec::new();
        self.encode(&mut buf);
        assert(buf@ =~= card_list_bytes(self.messages()));
        buf
    }
}

/// One entry of a `CardHistoryList`: a transaction, the total it
/// reported, and when, in seconds and nanoseconds since the Unix epoch.
pub struct CardTransactionHistory {
    pub transaction_id: String,
    pub total_due_input: i64,
    pub timestamp_seconds: i64,
    pub timestamp_nanos: i32,
}

/// What a `CardTransactionHistory` message holds, as plain values.
pub struct HistoryMessage {
    pub transaction_id: Seq<char>,
    pub total_due_input: i64,
    pub timestamp_seconds: i64,
    pub timestamp_nanos: i32,
}

impl View for CardTransactionHistory {
    type V = HistoryMessage;

    open spec fn view(&self) -> HistoryMessage {
        HistoryMessage {
            transaction_id: self.transaction_id@,
            total_due_input: self.total_due_input,
            timestamp_seconds: self.timestamp_seconds,
            timestamp_nanos: self.timestamp_nanos,
        }
    }
}

impl HistoryMessage {
    /// The bytes of a `CardTransactionHistory`: fields 1 to 4 in order,
    /// each left out where it is empty or zero.
    pub open spec fn bytes(self) -> Seq<u8> {
        string_unless_empty(1, self.transaction_id) + integer_unless_zero(
            2,
            self.total_due_input as int,
        ) + integer_unless_zero(3, self.timestamp_seconds as int) + integer_unless_zero(
            4,
            self.timestamp_nanos as int,
        )
    }
}

/// The bytes of a `CardHistoryList`: each entry as field 1, in order.
pub open spec fn history_list_bytes(histories: Seq<HistoryMessage>) -> Seq<u8>
    decreases histories.len(),
{
    if histories.len() == 0 {
        Seq::empty()
    } else {
        history_list_bytes(histories.drop_last()) + delimited_field(
            1,
            histories.last().bytes(),
        )
    }
}

/// The entries of a list, each by its view.
pub open spec fn history_messages(histories: Seq<CardTransactionHistory>) -> Seq<
    HistoryMessage,
> {
    histories.map_values(|h: CardTransactionHistory| h@)
}

impl CardTransactionHistory {
    /// Appends the bytes of this entry to `buf`.
    pub fn encode(&self, buf: &mut Vec<u8>)
        ensures
            final(buf)@ == old(buf)@ + self@.bytes(),
    {
        put_string_unless_empty(buf, 1, &self.transaction_id);
        put_int64_unless_zero(buf, 2, self.total_due_input);
        put_int64_unless_zero(buf, 3, self.timestamp_seconds);
        put_int32_unless_zero(buf, 4, self.timestamp_nanos);
        assert(buf@ =~= old(buf)@ + self@.bytes());
    }
}

/// The history of one card, newest entry first.
pub struct CardHistoryList {
    pub histories: Vec<CardTransactionHistory>,
}

impl CardHistoryList {
    /// The entries of this list, each by its view.
    pub open spec fn messages(&self) -> Seq<HistoryMessage> {
        history_messages(self.histories@)
    }

    /// Appends the bytes of this list to `buf`.
    pub fn encode(&self, buf: &mut Vec<u8>)
        ensures
            final(buf)@ == old(buf)@ + history_list_bytes(self.messages()),
    {
        let mut i: usize = 0;
        assert(self.messages().take(0) =~= Seq::empty());
        while i < self.histories.len()
            invariant
                i <= self.histories.len(),
                buf@ == old(buf)@ + history_list_bytes(self.messages().take(i as int)),
            decreases self.histories.len() - i,
        {
            let mut body: Vec<u8> = Vec::new();
            self.histories[i].encode(&mut body);
            assert(body@ =~= self.histories[i as int]@.bytes());
            put_message(buf, 1, &mut body);
            proof {
                let upto = self.messages().take(i + 1);
                assert(upto.drop_last() =~= self.messages().take(i as int));
                assert(upto.last() == self.histories[i as int]@);
                assert(buf@ =~= old(buf)@ + history_list_bytes(upto));
            }
            i += 1;
        }
        assert(self.messages().take(i as int) =~= self.messages());
    }

    /// The bytes of this list.
    pub fn encode_to_vec(&self) -> (bytes: Vec<u8>)
        ensures
            bytes@ == history_list_bytes(self.messages()),
    {
        let mut buf: Vec<u8> = Vec::new();
        self.encode(&mut buf);
        assert(buf@ =~= history_list_bytes(self.messages()));
        buf
    }
}

impl FromSpecImpl<ShowGetCardResponse> for Card {
    open spec fn obeys_from_spec() -> bool {
        true
    }

    open spec fn from_spec(param: ShowGetCardResponse) -> Card {
        Card {
            card_id: param.card_id,
            card_name: param.card_name,
            card_bank: param.card_bank,
            card_primary_color: packed(param.card_primary_color) as i32,
            card_secondary_color: packed(param.card_secondary_color) as i32,
            last_total_due: param.last_total_due,
            last_delta: param.last_delta,
        }
    }
}

impl From<ShowGetCardResponse> for Card {
    /// A card as shown to its owner, as a card of a list: each colour
    /// packed into one integer.
    fn from(param: ShowGetCardResponse) -> (card: Card) {
        Card {
            card_id: param.card_id,
            card_name: param.card_name,
            card_bank: param.card_bank,
            card_primary_color: pack(param.card_primary_color),
            card_secondary_color: pack(param.card_secondary_color),
            last_total_due: param.last_total_due,
            last_delta: param.last_delta,
        }
    }
}

impl FromSpecImpl<crate::models::CardTransactionHistory> for CardTransactionHistory {
    open spec fn obeys_from_spec() -> bool {
        true
    }

    open spec fn from_spec(value: crate::models::CardTransactionHistory) -> CardTransactionHistory {
        let timestamp = timestamp_of(
            rfc3339_instant(value.timestamp@),
            plain_instant(value.timestamp@),
        );
        CardTransactionHistory {
            transaction_id: value.transaction_id,
            total_due_input: value.total_due_input,
            timestamp_seconds: timestamp.seconds,
            timestamp_nanos: timestamp.nanos,
        }
    }
}

impl From<crate::models::CardTransactionHistory> for CardTransactionHistory {
    /// A stored transaction as an entry of a history: its time read from
    /// the text, the epoch where the text cannot be read.
    fn from(value: crate::models::CardTransactionHistory) -> (entry: CardTransactionHistory) {
        let timestamp = parse_timestamp(value.timestamp.as_str());
        CardTransactionHistory {
            transaction_id: value.transaction_id,
            total_due_input: value.total_due_input,
            timestamp_seconds: timestamp.seconds,
            timestamp_nanos: timestamp.nanos,
        }
    }
}

} // verus!
