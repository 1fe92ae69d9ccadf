//! The control protocol: the signals that the client and the daemon
//! exchange, their shape as structured items, and their bytes on the wire.

use crate::text::{decimal_digits, push_decimal};
use vstd::prelude::*;

verus! {

/// Where an export goes.
#[derive(Debug, Clone, PartialEq, Eq)]
pub enum SaveTo {
    /// Into the file of this name.
    File { name: String },
    /// Back to the client, over the connection.
    Stdout,
}

/// One message of the control protocol.
#[derive(Debug, Clone, PartialEq, Eq)]
pub enum Signal {
    Ack,
    Error { explanation: String },
    Stop,
    Ping,
    Save { to: SaveTo, time_sec: Option<usize> },
    Output { output: String },
}

/// What a destination says.
pub enum SaveToView {
    File { name: Seq<char> },
    Stdout,
}

/// What a signal says.
pub enum SignalView {
    Ack,
    Error { explanation: Seq<char> },
    Stop,
    Ping,
    Save { to: SaveToView, time_sec: Option<usize> },
    Output { output: Seq<char> },
}

impl View for SaveTo {
    type V = SaveToView;

    open spec fn view(&self) -> SaveToView {
        match self {
            SaveTo::File { name } => SaveToView::File { name: name@ },
            SaveTo::Stdout => SaveToView::Stdout,
        }
    }
}

impl View for Signal {
    type V = SignalView;

    open spec fn view(&self) -> SignalView {
        match self {
            Signal::Ack => SignalView::Ack,
            Signal::Error { explanation } => SignalView::Error { explanation: explanation@ },
            Signal::Stop => SignalView::Stop,
            Signal::Ping => SignalView::Ping,
            Signal::Save { to, time_sec } => SignalView::Save { to: to@, time_sec: *time_sec },
            Signal::Output { output } => SignalView::Output { output: output@ },
        }
    }
}

/// A structured item as it travels: what the protocol is made of, and
/// `Other` for every item that it is not made of.
#[derive(Debug)]
pub enum Item {
    Null,
    Unsigned(u64),
    Text(String),
    /// Pairs of key and value, in their order on the wire.
    Table(Vec<(Item, Item)>),
    Other,
}

/// What an item says.
pub enum ItemView {
    Null,
    Unsigned(u64),
    Text(Seq<char>),
    Table(Seq<(ItemView, ItemView)>),
    Other,
}

/// What an item says, pair by pair.
pub open spec fn item_view(item: Item) -> ItemView
    decreases item,
{
    match item {
        Item::Null => ItemView::Null,
        Item::Unsigned(n) => ItemView::Unsigned(n),
        Item::Text(text) => ItemView::Text(text@),
        Item::Table(entries) => ItemView::Table(
            Seq::new(
                entries@.len(),
                |i: int|
                    if 0 <= i < entries@.len() {
                        (item_view(entries@[i].0), item_view(entries@[i].1))
                    } else {
                        (ItemView::Null, ItemView::Null)
                    },
            ),
        ),
        Item::Other => ItemView::Other,
    }
}

impl View for Item {
    type V = ItemView;

    open spec fn view(&self) -> ItemView {
        item_view(*self)
    }
}

/// What the pairs of a table say.
pub open spec fn fields_view(fields: Seq<(Item, Item)>) -> Seq<(ItemView, ItemView)> {
    Seq::new(fields.len(), |i: int| (fields[i].0@, fields[i].1@))
}

proof fn lemma_table_view(entries: Vec<(Item, Item)>)
    ensures
        Item::Table(entries)@ == ItemView::Table(fields_view(entries@)),
{
    let table = Item::Table(entries)@;
    assert(table is Table);
    assert(table->Table_0.len() == entries@.len());
    assert forall|i: int| 0 <= i < entries@.len() implies table->Table_0[i] == fields_view(
        entries@,
    )[i] by {
        assert(table->Table_0[i] == (entries@[i].0@, entries@[i].1@));
    }
    assert(table->Table_0 =~= fields_view(entries@));
}

/// A variant with fields: a table of one pair, the variant's name and the
/// table of its fields.
pub open spec fn variant(tag: Seq<char>, fields: Seq<(ItemView, ItemView)>) -> ItemView {
    ItemView::Table(seq![(ItemView::Text(tag), ItemView::Table(fields))])
}

/// A field: its name and its value.
pub open spec fn field(name: Seq<char>, value: ItemView) -> (ItemView, ItemView) {
    (ItemView::Text(name), value)
}

/// The item that writes a destination.
pub open spec fn save_to_item(to: SaveToView) -> ItemView {
    match to {
        SaveToView::Stdout => ItemView::Text("Stdout"@),
        SaveToView::File { name } => variant("File"@, seq![field("name"@, ItemView::Text(name))]),
    }
}

/// The item that writes an optional number of seconds.
pub open spec fn time_item(time_sec: Option<usize>) -> ItemView {
    match time_sec {
        Some(seconds) => ItemView::Unsigned(seconds as u64),
        None => ItemView::Null,
    }
}

/// The item that writes a signal: its name alone where it has no fields,
/// else a variant of its name with its fields in the order of declaration.
pub open spec fn signal_item(signal: SignalView) -> ItemView {
    match signal {
        SignalView::Ack => ItemView::Text("Ack"@),
        SignalView::Stop => ItemView::Text("Stop"@),
        SignalView::Ping => ItemView::Text("Ping"@),
        SignalView::Error { explanation } => variant(
            "Error"@,
            seq![field("explanation"@, ItemView::Text(explanation))],
        ),
        SignalView::Save { to, time_sec } => variant(
            "Save"@,
            seq![field("to"@, save_to_item(to)), field("time_sec"@, time_item(time_sec))],
        ),
        SignalView::Output { output } => variant(
            "Output"@,
            seq![field("output"@, ItemView::Text(output))],
        ),
    }
}

/// The name and the fields of an item that has the shape of a variant with
/// fields.
pub open spec fn variant_parts(item: ItemView) -> Option<(Seq<char>, Seq<(ItemView, ItemView)>)> {
    match item {
        ItemView::Table(outer) => if outer.len() == 1 {
            match outer[0] {
                (ItemView::Text(tag), ItemView::Table(fields)) => Some((tag, fields)),
                _ => None,
            }
        } else {
            None
        },
        _ => None,
    }
}

/// The text of the one field `name`, where the fields are just that.
pub open spec fn single_text(fields: Seq<(ItemView, ItemView)>, name: Seq<char>) -> Option<
    Seq<char>,
> {
    if fields.len() == 1 && fields[0].0 == ItemView::Text(name) {
        match fields[0].1 {
            ItemView::Text(text) => Some(text),
            _ => None,
        }
    } else {
        None
    }
}

/// The values of the fields `to` and `time_sec`, where the fields are just
/// these two, in either order.
pub open spec fn save_parts(fields: Seq<(ItemView, ItemView)>) -> Option<(ItemView, ItemView)> {
    if fields.len() == 2 && fields[0].0 == ItemView::Text("to"@) && fields[1].0 == ItemView::Text(
        "time_sec"@,
    ) {
        Some((fields[0].1, fields[1].1))
    } else if fields.len() == 2 && fields[0].0 == ItemView::Text("time_sec"@) && fields[1].0
        == ItemView::Text("to"@) {
        Some((fields[1].1, fields[0].1))
    } else {
        None
    }
}

/// The destination that an item writes, if it writes one.
pub open spec fn save_to_of(item: ItemView) -> Option<SaveToView> {
    match item {
        ItemView::Text(text) => if text == "Stdout"@ {
            Some(SaveToView::Stdout)
        } else {
            None
        },
        _ => match variant_parts(item) {
            Some((tag, fields)) => if tag == "File"@ {
                match single_text(fields, "name"@) {
                    Some(name) => Some(SaveToView::File { name }),
                    None => None,
                }
            } else {
                None
            },
            None => None,
        },
    }
}

/// The optional number of seconds that an item writes, if it writes one.
pub open spec fn time_of(item: ItemView) -> Option<Option<usize>> {
    match item {
        ItemView::Null => Some(None),
        ItemView::Unsigned(seconds) => if seconds <= usize::MAX {
            Some(Some(seconds as usize))
        } else {
            None
        },
        _ => None,
    }
}

/// The `Save` signal that these fields write, if they write one.
pub open spec fn save_of(fields: Seq<(ItemView, ItemView)>) -> Option<SignalView> {
    match save_parts(fields) {
        Some((to, time)) => match (save_to_of(to), time_of(time)) {
            (Some(to), Some(time_sec)) => Some(SignalView::Save { to, time_sec }),
            _ => None,
        },
        None => None,
    }
}

/// The signal that an item writes; `None` where its shape is that of no
/// signal.
pub open spec fn signal_of(item: ItemView) -> Option<SignalView> {
    match item {
        ItemView::Text(tag) => if tag == "Ack"@ {
            Some(SignalView::Ack)
        } else if tag == "Stop"@ {
            Some(SignalView::Stop)
        } else if tag == "Ping"@ {
            Some(SignalView::Ping)
        } else {
            None
        },
        _ => match variant_parts(item) {
            Some((tag, fields)) => if tag == "Error"@ {
                match single_text(fields, "explanation"@) {
                    Some(explanation) => Some(SignalView::Error { explanation }),
                    None => None,
                }
            } else if tag == "Output"@ {
                match single_text(fields, "output"@) {
                    Some(output) => Some(SignalView::Output { output }),
                    None => None,
                }
            } else if tag == "Save"@ {
                save_of(fields)
            } else {
                None
            },
            None => None,
        },
    }
}

proof fn lemma_names_differ()
    ensures
        "Ack"@ != "Stop"@,
        "Ack"@ != "Ping"@,
        "Stop"@ != "Ping"@,
        "Error"@ != "Output"@,
        "Error"@ != "Save"@,
        "Output"@ != "Save"@,
        "to"@ != "time_sec"@,
{
    reveal_strlit("Ack");
    reveal_strlit("Stop");
    reveal_strlit("Ping");
    reveal_strlit("Error");
    reveal_strlit("Output");
    reveal_strlit("Save");
    reveal_strlit("to");
    reveal_strlit("time_sec");
    assert("Ack"@.len() == 3 && "Stop"@.len() == 4 && "Ping"@.len() == 4);
    assert("Stop"@[0] == 'S' && "Ping"@[0] == 'P');
    assert("Error"@.len() == 5 && "Output"@.len() == 6 && "Save"@.len() == 4);
    assert("to"@.len() == 2 && "time_sec"@.len() == 8);
}

/// Reading inverts writing: the item that writes a signal is read as that
/// signal, whatever the signal and its fields are.
pub proof fn lemma_signal_round_trip(signal: SignalView)
    ensures
        signal_of(signal_item(signal)) == Some(signal),
{
    lemma_names_differ();
    match signal {
        SignalView::Save { to, time_sec } => {
            let fields = seq![field("to"@, save_to_item(to)), field("time_sec"@, time_item(time_sec))];
            assert(variant_parts(signal_item(signal)) == Some(("Save"@, fields)));
            assert(save_parts(fields) == Some((save_to_item(to), time_item(time_sec))));
            match to {
                SaveToView::File { name } => {
                    let inner = seq![field("name"@, ItemView::Text(name))];
                    assert(variant_parts(save_to_item(to)) == Some(("File"@, inner)));
                    assert(single_text(inner, "name"@) == Some(name));
                },
                SaveToView::Stdout => {},
            }
            assert(save_to_of(save_to_item(to)) == Some(to));
            assert(time_of(time_item(time_sec)) == Some(time_sec));
        },
        SignalView::Error { explanation } => {
            let fields = seq![field("explanation"@, ItemView::Text(explanation))];
            assert(variant_parts(signal_item(signal)) == Some(("Error"@, fields)));
            assert(single_text(fields, "explanation"@) == Some(explanation));
        },
        SignalView::Output { output } => {
            let fields = seq![field("output"@, ItemView::Text(output))];
            assert(variant_parts(signal_item(signal)) == Some(("Output"@, fields)));
            assert(single_text(fields, "output"@) == Some(output));
        },
        _ => {},
    }
}

/// Why a message could not be written.
#[derive(Debug, Clone, Copy, PartialEq, Eq, Structural)]
pub enum EncodeError {
    /// The bytes could not be written.
    Io,
    /// The encoder refused the value.
    Value,
}

/// Why bytes could not be read as a signal.
#[derive(Debug, Clone, Copy, PartialEq, Eq, Structural)]
#[allow(inconsistent_fields)]
pub enum DecodeError {
    /// The bytes end before the item does.
    Io,
    /// The bytes are not an item: the fault is at this offset.
    Syntax { offset: usize },
    /// The item cannot be had as a value; it starts at this offset, where
    /// that is known.
    Semantic { offset: Option<usize> },
    /// The item is nested too deeply.
    RecursionLimitExceeded,
    /// The item is well formed and has the shape of no signal.
    UnknownShape,
}

impl DecodeError {
    /// The error in words.
    pub open spec fn explained(self) -> Seq<char> {
        match self {
            DecodeError::Io => "the message ends before it is complete"@,
            DecodeError::Syntax { offset } => "the message is malformed at byte "@ + decimal_digits(
                offset as nat,
            ),
            DecodeError::Semantic { offset: Some(offset) } => "the message has no meaning at byte "@
                + decimal_digits(offset as nat),
            DecodeError::Semantic { offset: None } => "the message has no meaning"@,
            DecodeError::RecursionLimitExceeded => "the message is nested too deeply"@,
            DecodeError::UnknownShape => "the message is no known signal"@,
        }
    }

    /// Whether more bytes may yet make the message whole: so it is where
    /// the bytes at hand end before the message does, and only there.
    pub fn is_incomplete(&self) -> (incomplete: bool)
        ensures
            incomplete == (*self == DecodeError::Io),
    {
        match self {
            DecodeError::Io => true,
            _ => false,
        }
    }

    /// The error in words, as it is sent back in an `Error` signal.
    pub fn explanation(&self) -> (text: String)
        ensures
            text@ == self.explained(),
    {
        match self {
            DecodeError::Io => "the message ends before it is complete".to_owned(),
            DecodeError::Syntax { offset } => {
                let mut text = "the message is malformed at byte ".to_owned();
                push_decimal(&mut text, *offset as u128);
                text
            },
            DecodeError::Semantic { offset: Some(offset) } => {
                let mut text = "the message has no meaning at byte ".to_owned();
                push_decimal(&mut text, *offset as u128);
                text
            },
            DecodeError::Semantic { offset: None } => "the message has no meaning".to_owned(),
            DecodeError::RecursionLimitExceeded => "the message is nested too deeply".to_owned(),
            DecodeError::UnknownShape => "the message is no known signal".to_owned(),
        }
    }
}

/// What `ciborium::into_writer` makes of the `ciborium::Value` that holds an
/// item when it writes into memory: the bytes, or why there are none.
pub uninterp spec fn cbor_bytes(item: ItemView) -> Result<Seq<u8>, EncodeError>;

/// What `ciborium::from_reader` makes of bytes when it is asked for one
/// `ciborium::Value`: the item or the reason why there is none, and the
/// bytes that it has left unread.
pub uninterp spec fn cbor_parse(bytes: Seq<u8>) -> (Result<ItemView, DecodeError>, Seq<u8>);

/// Whether an item writes a signal.
pub open spec fn is_message(item: ItemView) -> bool {
    exists|signal: SignalView| item == #[trigger] signal_item(signal)
}

/// What a `ciborium::Value` holds: the item that it is, with `Other` for
/// every value that the protocol is not made of.
pub uninterp spec fn value_item(value: ciborium::Value) -> ItemView;

/// `ciborium::Value`, seen here only through what it holds.
#[verifier::external_type_specification]
#[verifier::external_body]
pub struct ExValue(ciborium::Value);

/// The `ciborium::Value` of an item that writes a signal, one for one:
/// null, an integer, a text, or a map of such values in the same order.
#[verifier::external_body]
fn value_of(item: &Item) -> (value: ciborium::Value)
    requires
        is_message(item@),
    ensures
        value_item(value) == item@,
{
    match item {
        Item::Null | Item::Other => ciborium::Value::Null,
        Item::Unsigned(n) => ciborium::Value::Integer((*n).into()),
        Item::Text(text) => ciborium::Value::Text(text.clone()),
        Item::Table(entries) => ciborium::Value::Map(
            entries.iter().map(|(key, value)| (value_of(key), value_of(value))).collect(),
        ),
    }
}

/// The item of a `ciborium::Value`, one for one.
#[verifier::external_body]
fn item_of(value: ciborium::Value) -> (item: Item)
    ensures
        item@ == value_item(value),
{
    match value {
        ciborium::Value::Null => Item::Null,
        ciborium::Value::Integer(n) => match u64::try_from(n) {
            Ok(n) => Item::Unsigned(n),
            Err(_) => Item::Other,
        },
        ciborium::Value::Text(text) => Item::Text(text),
        ciborium::Value::Map(entries) => Item::Table(
            entries.into_iter().map(|(key, value)| (item_of(key), item_of(value))).collect(),
        ),
        _ => Item::Other,
    }
}

/// `ciborium::into_writer` into memory, on a value that writes a signal:
/// its bytes, or which of its two errors the encoder gave.
#[verifier::external_body]
fn encode(value: &ciborium::Value) -> (written: Result<Vec<u8>, EncodeError>)
    requires
        is_message(value_item(*value)),
    ensures
        written_view(written) == cbor_bytes(value_item(*value)),
{
    let mut bytes = Vec::new();
    match ciborium::into_writer(value, &mut bytes) {
        Ok(()) => Ok(bytes),
        Err(ciborium::ser::Error::Io(_)) => Err(EncodeError::Io),
        Err(ciborium::ser::Error::Value(_)) => Err(EncodeError::Value),
    }
}

/// What a value that was read, or the reason why none was, says.
pub open spec fn outcome_view(outcome: Result<ciborium::Value, DecodeError>) -> Result<
    ItemView,
    DecodeError,
> {
    match outcome {
        Ok(value) => Ok(value_item(value)),
        Err(e) => Err(e),
    }
}

/// What reading one value from the front of some bytes gives.
struct Parsed<'a> {
    /// The value, or why there is none.
    value: Result<ciborium::Value, DecodeError>,
    /// The bytes that were left unread.
    rest: &'a [u8],
}

/// `ciborium::from_reader` on bytes in memory: the first value of the
/// bytes, or why there is none, and the bytes behind what was read, which
/// are an end of the bytes given.
#[verifier::external_body]
fn parse<'a>(bytes: &'a [u8]) -> (parsed: Parsed<'a>)
    ensures
        outcome_view(parsed.value) == cbor_parse(bytes@).0,
        parsed.rest@ == cbor_parse(bytes@).1,
        parsed.rest@.len() <= bytes@.len(),
        parsed.rest@ == bytes@.skip(bytes@.len() - parsed.rest@.len()),
{
    let mut rest = bytes;
    let value = match ciborium::from_reader::<ciborium::Value, _>(&mut rest) {
        Ok(value) => Ok(value),
        Err(ciborium::de::Error::Io(_)) => Err(DecodeError::Io),
        Err(ciborium::de::Error::Syntax(offset)) => Err(DecodeError::Syntax { offset }),
        Err(ciborium::de::Error::Semantic(offset, _)) => Err(DecodeError::Semantic { offset }),
        Err(ciborium::de::Error::RecursionLimitExceeded) => Err(
            DecodeError::RecursionLimitExceeded,
        ),
    };
    Parsed { value, rest }
}

/// Whether two texts are the same.
fn same_text(a: &str, b: &str) -> (same: bool)
    ensures
        same == (a@ == b@),
{
    a.to_owned() == b.to_owned()
}

fn text_item(text: &str) -> (item: Item)
    ensures
        item@ == ItemView::Text(text@),
{
    Item::Text(text.to_owned())
}

fn variant_item(tag: &str, fields: Vec<(Item, Item)>) -> (item: Item)
    ensures
        item@ == variant(tag@, fields_view(fields@)),
{
    let ghost inner = fields;
    let body = Item::Table(fields);
    let mut outer: Vec<(Item, Item)> = Vec::new();
    outer.push((text_item(tag), body));
    proof {
        lemma_table_view(inner);
        lemma_table_view(outer);
        assert(fields_view(outer@) =~= seq![(ItemView::Text(tag@), ItemView::Table(fields_view(inner@)))]);
    }
    Item::Table(outer)
}

fn is_text(item: &Item, text: &str) -> (same: bool)
    ensures
        same == (item@ == ItemView::Text(text@)),
{
    match item {
        Item::Text(found) => same_text(found.as_str(), text),
        _ => false,
    }
}

/// Takes an item apart that has the shape of a variant with fields.
fn into_variant(item: Item) -> (parts: Option<(String, Vec<(Item, Item)>)>)
    ensures
        parts matches Some((tag, fields)) ==> variant_parts(item@) == Some(
            (tag@, fields_view(fields@)),
        ),
        parts is None ==> variant_parts(item@) is None,
{
    match item {
        Item::Table(mut outer) => {
            proof {
                lemma_table_view(outer);
            }
            if outer.len() != 1 {
                return None;
            }
            let ghost first = outer@[0];
            match outer.pop() {
                Some((Item::Text(tag), Item::Table(fields))) => {
                    proof {
                        lemma_table_view(fields);
                    }
                    Some((tag, fields))
                },
                _ => None,
            }
        },
        _ => None,
    }
}

fn into_single_text(mut fields: Vec<(Item, Item)>, name: &str) -> (text: Option<String>)
    ensures
        text matches Some(found) ==> single_text(fields_view(fields@), name@) == Some(found@),
        text is None ==> single_text(fields_view(fields@), name@) is None,
{
    if fields.len() != 1 {
        return None;
    }
    match fields.pop() {
        Some((key, Item::Text(text))) => if is_text(&key, name) {
            Some(text)
        } else {
            None
        },
        _ => None,
    }
}

impl SaveTo {
    /// The item that writes this destination.
    pub fn to_item(&self) -> (item: Item)
        ensures
            item@ == save_to_item(self@),
    {
        match self {
            SaveTo::Stdout => text_item("Stdout"),
            SaveTo::File { name } => {
                let mut fields: Vec<(Item, Item)> = Vec::new();
                fields.push((text_item("name"), Item::Text(name.clone())));
                assert(fields_view(fields@) =~= seq![field("name"@, ItemView::Text(name@))]);
                variant_item("File", fields)
            },
        }
    }

    /// The destination that an item writes.
    pub fn from_item(item: Item) -> (to: Option<SaveTo>)
        ensures
            to matches Some(found) ==> save_to_of(item@) == Some(found@),
            to is None ==> save_to_of(item@) is None,
    {
        match item {
            Item::Text(text) => if same_text(text.as_str(), "Stdout") {
                Some(SaveTo::Stdout)
            } else {
                None
            },
            other => match into_variant(other) {
                Some((tag, fields)) => if same_text(tag.as_str(), "File") {
                    match into_single_text(fields, "name") {
                        Some(name) => Some(SaveTo::File { name }),
                        None => None,
                    }
                } else {
                    None
                },
                None => None,
            },
        }
    }
}

fn time_from_item(item: &Item) -> (time: Option<Option<usize>>)
    ensures
        time == time_of(item@),
{
    match item {
        Item::Null => Some(None),
        Item::Unsigned(seconds) => if *seconds <= usize::MAX as u64 {
            Some(Some(*seconds as usize))
        } else {
            None
        },
        _ => None,
    }
}

fn save_from_fields(mut fields: Vec<(Item, Item)>) -> (signal: Option<Signal>)
    ensures
        signal matches Some(found) ==> save_of(fields_view(fields@)) == Some(found@),
        signal is None ==> save_of(fields_view(fields@)) is None,
{
    if fields.len() != 2 {
        return None;
    }
    let ghost all = fields_view(fields@);
    let second = fields.pop();
    let first = fields.pop();
    match (first, second) {
        (Some((first_key, first_value)), Some((second_key, second_value))) => {
            assert(all[0] == (first_key@, first_value@));
            assert(all[1] == (second_key@, second_value@));
            let (to, time) = if is_text(&first_key, "to") && is_text(&second_key, "time_sec") {
                (first_value, second_value)
            } else if is_text(&first_key, "time_sec") && is_text(&second_key, "to") {
                (second_value, first_value)
            } else {
                return None;
            };
            assert(save_parts(all) == Some((to@, time@)));
            let time_sec = time_from_item(&time);
            match (SaveTo::from_item(to), time_sec) {
                (Some(to), Some(time_sec)) => Some(Signal::Save { to, time_sec }),
                _ => None,
            }
        },
        _ => None,
    }
}

impl Signal {
    /// The item that writes this signal.
    pub fn to_item(&self) -> (item: Item)
        ensures
            item@ == signal_item(self@),
    {
        match self {
            Signal::Ack => text_item("Ack"),
            Signal::Stop => text_item("Stop"),
            Signal::Ping => text_item("Ping"),
            Signal::Error { explanation } => {
                let mut fields: Vec<(Item, Item)> = Vec::new();
                fields.push((text_item("explanation"), Item::Text(explanation.clone())));
                assert(fields_view(fields@) =~= seq![
                    field("explanation"@, ItemView::Text(explanation@)),
                ]);
                variant_item("Error", fields)
            },
            Signal::Save { to, time_sec } => {
                let time = match time_sec {
                    Some(seconds) => Item::Unsigned(*seconds as u64),
                    None => Item::Null,
                };
                let mut fields: Vec<(Item, Item)> = Vec::new();
                fields.push((text_item("to"), to.to_item()));
                fields.push((text_item("time_sec"), time));
                assert(fields_view(fields@) =~= seq![
                    field("to"@, save_to_item(to@)),
                    field("time_sec"@, time_item(*time_sec)),
                ]);
                variant_item("Save", fields)
            },
            Signal::Output { output } => {
                let mut fields: Vec<(Item, Item)> = Vec::new();
                fields.push((text_item("output"), Item::Text(output.clone())));
                assert(fields_view(fields@) =~= seq![field("output"@, ItemView::Text(output@))]);
                variant_item("Output", fields)
            },
        }
    }

    /// The signal that an item writes, or that it has the shape of none.
    pub fn from_item(item: Item) -> (signal: Result<Signal, DecodeError>)
        ensures
            signal matches Ok(found) ==> signal_of(item@) == Some(found@),
            signal matches Err(e) ==> signal_of(item@) is None && e == DecodeError::UnknownShape,
    {
        match item {
            Item::Text(tag) => if same_text(tag.as_str(), "Ack") {
                Ok(Signal::Ack)
            } else if same_text(tag.as_str(), "Stop") {
                Ok(Signal::Stop)
            } else if same_text(tag.as_str(), "Ping") {
                Ok(Signal::Ping)
            } else {
                Err(DecodeError::UnknownShape)
            },
            other => match into_variant(other) {
                Some((tag, fields)) => if same_text(tag.as_str(), "Error") {
                    match into_single_text(fields, "explanation") {
                        Some(explanation) => Ok(Signal::Error { explanation }),
                        None => Err(DecodeError::UnknownShape),
                    }
                } else if same_text(tag.as_str(), "Output") {
                    match into_single_text(fields, "output") {
                        Some(output) => Ok(Signal::Output { output }),
                        None => Err(DecodeError::UnknownShape),
                    }
                } else if same_text(tag.as_str(), "Save") {
                    match save_from_fields(fields) {
                        Some(signal) => Ok(signal),
                        None => Err(DecodeError::UnknownShape),
                    }
                } else {
                    Err(DecodeError::UnknownShape)
                },
                None => Err(DecodeError::UnknownShape),
            },
        }
    }

    /// Writes the signal behind the bytes of `into`. Where the encoder
    /// fails, `into` is left as it was.
    pub fn feed_into(self, into: &mut Vec<u8>) -> (fed: Result<(), EncodeError>)
        ensures
            fed == fed_outcome(cbor_bytes(signal_item(self@))),
            final(into)@ == fed_bytes(old(into)@, cbor_bytes(signal_item(self@))),
    {
        let item = self.to_item();
        assert(is_message(item@)) by {
            assert(item@ == signal_item(self@));
        }
        let value = value_of(&item);
        Signal::feed_bytes(encode(&value), into)
    }

    /// Puts what the encoder wrote behind the bytes of `into`. Where it
    /// wrote nothing, `into` is left as it was and its error is handed on.
    pub fn feed_bytes(written: Result<Vec<u8>, EncodeError>, into: &mut Vec<u8>) -> (fed: Result<
        (),
        EncodeError,
    >)
        ensures
            fed == fed_outcome(written_view(written)),
            final(into)@ == fed_bytes(old(into)@, written_view(written)),
    {
        match written {
            Ok(mut bytes) => {
                into.append(&mut bytes);
                Ok(())
            },
            Err(e) => Err(e),
        }
    }

    /// Reads one signal from the front of `from`, and says how many bytes
    /// it took.
    pub fn read_from(from: &[u8]) -> (read: Result<(Signal, usize), DecodeError>)
        ensures
            read matches Ok((signal, used)) ==> decoded(from@) == Ok::<SignalView, DecodeError>(
                signal@,
            ) && used == consumed(from@),
            read matches Err(e) ==> decoded(from@) == Err::<SignalView, DecodeError>(e),
    {
        let parsed = parse(from);
        let rest = parsed.rest;
        match parsed.value {
            Ok(value) => match Signal::from_item(item_of(value)) {
                Ok(signal) => Ok((signal, from.len() - rest.len())),
                Err(e) => Err(e),
            },
            Err(e) => Err(e),
        }
    }
}

/// What the encoder's bytes, or its error, say.
pub open spec fn written_view(written: Result<Vec<u8>, EncodeError>) -> Result<
    Seq<u8>,
    EncodeError,
> {
    match written {
        Ok(bytes) => Ok(bytes@),
        Err(e) => Err(e),
    }
}

/// What feeding hands back: success where the encoder wrote bytes, else the
/// encoder's error.
pub open spec fn fed_outcome(written: Result<Seq<u8>, EncodeError>) -> Result<(), EncodeError> {
    match written {
        Ok(_) => Ok(()),
        Err(e) => Err(e),
    }
}

/// The bytes after feeding: those before with the encoder's bytes behind
/// them, and those before alone where the encoder wrote none.
pub open spec fn fed_bytes(before: Seq<u8>, written: Result<Seq<u8>, EncodeError>) -> Seq<u8> {
    match written {
        Ok(bytes) => before + bytes,
        Err(_) => before,
    }
}

/// The signal that stands at the front of some bytes, or why none does.
pub open spec fn decoded(bytes: Seq<u8>) -> Result<SignalView, DecodeError> {
    match cbor_parse(bytes).0 {
        Ok(item) => match signal_of(item) {
            Some(signal) => Ok(signal),
            None => Err(DecodeError::UnknownShape),
        },
        Err(e) => Err(e),
    }
}

/// The number of bytes that the item at the front of some bytes takes.
pub open spec fn consumed(bytes: Seq<u8>) -> int {
    bytes.len() - cbor_parse(bytes).1.len()
}

/// Which names a local socket can have on this platform.
#[derive(Debug, Clone, Copy, PartialEq, Eq, Structural)]
pub enum NameSupport {
    OnlyPaths,
    OnlyNamespaced,
    Both,
}

/// `interprocess::local_socket::NameTypeSupport::query`: what the platform
/// supports. Nothing is claimed of the answer.
#[verifier::external_body]
fn name_support() -> NameSupport {
    match interprocess::local_socket::NameTypeSupport::query() {
        interprocess::local_socket::NameTypeSupport::OnlyPaths => NameSupport::OnlyPaths,
        interprocess::local_socket::NameTypeSupport::OnlyNamespaced => NameSupport::OnlyNamespaced,
        interprocess::local_socket::NameTypeSupport::Both => NameSupport::Both,
    }
}

/// The name of the control endpoint where `support` holds: a path where
/// only paths can be had, else a name in the namespace.
pub open spec fn endpoint_name(support: NameSupport) -> Seq<char> {
    match support {
        NameSupport::OnlyPaths => "/tmp/memoirrs.sock"@,
        _ => "@memoirrs.sock"@,
    }
}

/// The name of the control endpoint where `support` holds.
pub fn socket_name_for(support: NameSupport) -> (name: String)
    ensures
        name@ == endpoint_name(support),
{
    match support {
        NameSupport::OnlyPaths => "/tmp/memoirrs.sock".to_owned(),
        NameSupport::OnlyNamespaced => "@memoirrs.sock".to_owned(),
        NameSupport::Both => "@memoirrs.sock".to_owned(),
    }
}

/// The one name of the control endpoint on this platform.
pub fn socket_name() -> (name: String)
    ensures
        exists|support: NameSupport| name@ == #[trigger] endpoint_name(support),
{
    socket_name_for(name_support())
}

} // verus!
