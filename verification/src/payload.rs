//! The payload of a block: its transactions as JSON text.
//!
//! A payload is a JSON array with one object for each transaction, as in
//! `[{"sender":"Alice","receiver":"Bob","amount":50,"fee":1,"nonce":0,"required_signatures":1}]`.
//! Signatures are not part of the payload. The library sets the text
//! together and picks the fields out of what was read; `serde_json` writes
//! the strings and reads the text.

use crate::text::{append_decimal, decimal};
use crate::transaction::{tx_views, Transaction, TransactionView};
use serde_json::{Map as JsonMap, Value as JsonValue};
use vstd::prelude::*;
use vstd::string::*;

verus! {

/// `serde_json`'s value: anything that JSON can hold. The library looks at
/// such a value only through `text_field` and `number_field`.
#[verifier::external_type_specification]
#[verifier::external_body]
pub struct ExJsonValue(JsonValue);

/// `serde_json`'s map: the fields of a JSON object.
#[verifier::external_type_specification]
#[verifier::external_body]
#[verifier::reject_recursive_types(K)]
#[verifier::reject_recursive_types(V)]
pub struct ExJsonMap<K, V>(JsonMap<K, V>);

/// The fields of a JSON object that hold a string, each with its string: what
/// `Value::as_str` gives for the value that `Map::get` finds.
pub uninterp spec fn object_texts(object: serde_json::Map<String, serde_json::Value>) -> Map<Seq<char>, Seq<char>>;

/// The fields of a JSON object that hold a number which `serde_json` read as
/// a whole number from 0 to the largest that 64 bits hold, each with its
/// number: what `Value::as_u64` gives for the value that `Map::get` finds.
pub uninterp spec fn object_numbers(object: serde_json::Map<String, serde_json::Value>) -> Map<Seq<char>, u64>;

/// The JSON text that `serde_json::to_string` writes for a string: the string
/// in quotes, with what JSON asks to be escaped.
pub uninterp spec fn json_of_text(text: Seq<char>) -> Seq<char>;

/// What `serde_json::from_str` reads from a text as an array of objects: for
/// each object its string fields and its number fields; `None` where the text
/// is not a JSON array of objects.
pub uninterp spec fn objects_of_json(text: Seq<char>) -> Option<Seq<(Map<Seq<char>, Seq<char>>, Map<Seq<char>, u64>)>>;

/// A JSON object as contracts see it: its string fields and its number
/// fields.
pub type ObjectView = (Map<Seq<char>, Seq<char>>, Map<Seq<char>, u64>);

/// The object as contracts see it.
pub open spec fn object_view(object: JsonMap<String, JsonValue>) -> ObjectView {
    (object_texts(object), object_numbers(object))
}

/// The objects of a vector, each as contracts see it.
pub open spec fn object_views(objects: Seq<JsonMap<String, JsonValue>>) -> Seq<ObjectView> {
    Seq::new(objects.len(), |i: int| object_view(objects[i]))
}

/// The transactions of an optional vector.
pub open spec fn txs_of(txs: Option<Vec<Transaction>>) -> Option<Seq<TransactionView>> {
    match txs {
        Some(t) => Some(tx_views(t@)),
        None => None,
    }
}

/// Calls `serde_json::to_string` on a string. Trusted: the text is a function
/// of the string alone, and writing a string does not fail. (`serde_json`
/// names two causes of failure: a value whose own way of being written
/// fails, and a map with keys that are no strings. A string is neither, and
/// the text goes to memory.)
#[verifier::external_body]
fn json_string(text: &str) -> (json: String)
    ensures
        json@ == json_of_text(text@),
{
    serde_json::to_string(text).unwrap_or_default()
}

/// Calls `serde_json::from_str` for a vector of JSON objects. Trusted: the
/// objects, or the failure, are a function of the text alone.
#[verifier::external_body]
fn objects_from_json(text: &str) -> (objects: Option<Vec<JsonMap<String, JsonValue>>>)
    ensures
        match objects {
            Some(read) => objects_of_json(text@) == Some(object_views(read@)),
            None => objects_of_json(text@) is None,
        },
{
    serde_json::from_str(text).ok()
}

/// The string that the field `key` of `object` holds: `Map::get`, then
/// `Value::as_str`, then a copy. Trusted: `None` comes back where the object
/// has no such field or the field holds no string.
#[verifier::external_body]
fn text_field(object: &JsonMap<String, JsonValue>, key: &str) -> (text: Option<String>)
    ensures
        match text {
            Some(t) => object_texts(*object).contains_key(key@) && object_texts(*object)[key@]
                == t@,
            None => !object_texts(*object).contains_key(key@),
        },
{
    object.get(key).and_then(|value| value.as_str()).map(|text| text.to_owned())
}

/// The number that the field `key` of `object` holds: `Map::get`, then
/// `Value::as_u64`. Trusted: `None` comes back where the object has no such
/// field or the field holds no whole number from 0 to the largest that 64
/// bits hold.
#[verifier::external_body]
fn number_field(object: &JsonMap<String, JsonValue>, key: &str) -> (number: Option<u64>)
    ensures
        match number {
            Some(n) => object_numbers(*object).contains_key(key@) && object_numbers(
                *object,
            )[key@] == n,
            None => !object_numbers(*object).contains_key(key@),
        },
{
    object.get(key).and_then(|value| value.as_u64())
}

/// The JSON object that stands for a transaction.
pub open spec fn object_text(tx: TransactionView) -> Seq<char> {
    "{\"sender\":"@ + json_of_text(tx.sender) + ",\"receiver\":"@ + json_of_text(tx.receiver)
        + ",\"amount\":"@ + decimal(tx.amount as nat) + ",\"fee\":"@ + decimal(tx.fee as nat)
        + ",\"nonce\":"@ + decimal(tx.nonce as nat) + ",\"required_signatures\":"@ + decimal(
        tx.required_signatures as nat,
    ) + "}"@
}

/// The objects of `txs`, with a comma between one and the next.
pub open spec fn objects_text(txs: Seq<TransactionView>) -> Seq<char>
    decreases txs.len(),
{
    if txs.len() == 0 {
        Seq::empty()
    } else if txs.len() == 1 {
        object_text(txs.last())
    } else {
        objects_text(txs.drop_last()) + ","@ + object_text(txs.last())
    }
}

/// The payload text for `txs`.
pub open spec fn payload_text(txs: Seq<TransactionView>) -> Seq<char> {
    "["@ + objects_text(txs) + "]"@
}

/// The object holds what a transaction is made of: sender and receiver as
/// strings; amount, fee, nonce and the number of signatures asked for as
/// numbers, the last one no larger than this machine can count. Other fields
/// do not matter.
pub open spec fn reads_as_transaction(object: ObjectView) -> bool {
    &&& object.0.contains_key("sender"@)
    &&& object.0.contains_key("receiver"@)
    &&& object.1.contains_key("amount"@)
    &&& object.1.contains_key("fee"@)
    &&& object.1.contains_key("nonce"@)
    &&& object.1.contains_key("required_signatures"@)
    &&& object.1["required_signatures"@] <= usize::MAX
}

/// The transaction that an object stands for. It carries no signatures.
pub open spec fn transaction_of(object: ObjectView) -> TransactionView {
    TransactionView {
        sender: object.0["sender"@],
        receiver: object.0["receiver"@],
        amount: object.1["amount"@],
        fee: object.1["fee"@],
        nonce: object.1["nonce"@],
        signatures: Seq::empty(),
        required_signatures: object.1["required_signatures"@] as usize,
    }
}

/// The transactions that a sequence of objects stands for; `None` where one
/// of them does not read as a transaction.
pub open spec fn transactions_of(objects: Seq<ObjectView>) -> Option<Seq<TransactionView>> {
    if forall|i: int| 0 <= i < objects.len() ==> reads_as_transaction(#[trigger] objects[i]) {
        Some(Seq::new(objects.len(), |i: int| transaction_of(objects[i])))
    } else {
        None
    }
}

/// The transactions that a payload text holds; `None` for a text that is no
/// payload.
pub open spec fn payload_transactions(text: Seq<char>) -> Option<Seq<TransactionView>> {
    match objects_of_json(text) {
        Some(objects) => transactions_of(objects),
        None => None,
    }
}

/// Appends the JSON object that stands for `tx`.
pub fn append_object(out: &mut String, tx: &Transaction)
    ensures
        final(out)@ == old(out)@ + object_text(tx@),
{
    let sender = json_string(tx.sender.as_str());
    let receiver = json_string(tx.receiver.as_str());
    out.append("{\"sender\":");
    out.append(sender.as_str());
    out.append(",\"receiver\":");
    out.append(receiver.as_str());
    out.append(",\"amount\":");
    append_decimal(out, tx.amount as u128);
    out.append(",\"fee\":");
    append_decimal(out, tx.fee as u128);
    out.append(",\"nonce\":");
    append_decimal(out, tx.nonce as u128);
    out.append(",\"required_signatures\":");
    append_decimal(out, tx.required_signatures as u128);
    out.append("}");
    assert(out@ =~= old(out)@ + object_text(tx@));
}

/// Writes `txs` as a payload.
pub fn encode_transactions(txs: &Vec<Transaction>) -> (text: String)
    ensures
        text@ == payload_text(tx_views(txs@)),
{
    let mut out = String::new();
    out.append("[");
    let mut i: usize = 0;
    while i < txs.len()
        invariant
            i <= txs.len(),
            out@ == "["@ + objects_text(tx_views(txs@).take(i as int)),
        decreases txs.len() - i,
    {
        let ghost seen = tx_views(txs@).take(i as int);
        let ghost next = tx_views(txs@).take(i + 1);
        assert(next.drop_last() =~= seen);
        assert(next.last() == txs@[i as int]@);
        if i > 0 {
            out.append(",");
        }
        append_object(&mut out, &txs[i]);
        assert(out@ =~= "["@ + objects_text(next));
        i = i + 1;
    }
    assert(tx_views(txs@).take(i as int) =~= tx_views(txs@));
    out.append("]");
    out
}

/// Reads one transaction out of a JSON object; `None` where the object does
/// not read as a transaction. The transaction comes without signatures.
pub fn transaction_from(object: &JsonMap<String, JsonValue>) -> (tx: Option<Transaction>)
    ensures
        match tx {
            Some(t) => reads_as_transaction(object_view(*object)) && t@ == transaction_of(
                object_view(*object),
            ),
            None => !reads_as_transaction(object_view(*object)),
        },
{
    let sender = match text_field(object, "sender") {
        Some(sender) => sender,
        None => {
            return None;
        },
    };
    let receiver = match text_field(object, "receiver") {
        Some(receiver) => receiver,
        None => {
            return None;
        },
    };
    let amount = match number_field(object, "amount") {
        Some(amount) => amount,
        None => {
            return None;
        },
    };
    let fee = match number_field(object, "fee") {
        Some(fee) => fee,
        None => {
            return None;
        },
    };
    let nonce = match number_field(object, "nonce") {
        Some(nonce) => nonce,
        None => {
            return None;
        },
    };
    let required = match number_field(object, "required_signatures") {
        Some(required) => required,
        None => {
            return None;
        },
    };
    if required > usize::MAX as u64 {
        return None;
    }
    let tx = Transaction {
        sender,
        receiver,
        amount,
        fee,
        nonce,
        signatures: Vec::new(),
        required_signatures: required as usize,
    };
    assert(tx@.signatures =~= Seq::empty());
    Some(tx)
}

/// Reads the transactions out of JSON objects, in order; `None` where one of
/// the objects does not read as a transaction.
pub fn transactions_from(objects: &Vec<JsonMap<String, JsonValue>>) -> (txs: Option<
    Vec<Transaction>,
>)
    ensures
        txs_of(txs) == transactions_of(object_views(objects@)),
{
    let mut txs: Vec<Transaction> = Vec::new();
    let mut i: usize = 0;
    while i < objects.len()
        invariant
            i <= objects.len(),
            txs.len() == i,
            forall|k: int| 0 <= k < i ==> reads_as_transaction(#[trigger] object_views(objects@)[k]),
            forall|k: int|
                0 <= k < i ==> #[trigger] tx_views(txs@)[k] == transaction_of(
                    object_views(objects@)[k],
                ),
        decreases objects.len() - i,
    {
        assert(object_views(objects@)[i as int] == object_view(objects@[i as int]));
        match transaction_from(&objects[i]) {
            Some(tx) => {
                let ghost before = txs@;
                txs.push(tx);
                assert forall|k: int| 0 <= k < i + 1 implies #[trigger] tx_views(txs@)[k]
                    == transaction_of(object_views(objects@)[k]) by {
                    if k < i {
                        assert(txs@[k] == before[k]);
                        assert(tx_views(before)[k] == transaction_of(object_views(objects@)[k]));
                    }
                }
            },
            None => {
                return None;
            },
        }
        i = i + 1;
    }
    assert(tx_views(txs@) =~= Seq::new(
        objects@.len(),
        |i: int| transaction_of(object_views(objects@)[i]),
    ));
    Some(txs)
}

/// Reads the transactions of a payload. They come without signatures.
pub fn decode_transactions(text: &str) -> (txs: Option<Vec<Transaction>>)
    ensures
        txs_of(txs) == payload_transactions(text@),
{
    match objects_from_json(text) {
        Some(objects) => transactions_from(&objects),
        None => None,
    }
}

} // verus!
