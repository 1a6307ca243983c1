//! Plain-value forms of what the chain hands to an entry point and of what
//! an entry point hands back: block time, caller and funds on the way in,
//! transfer requests and attributes on the way out.

use vstd::prelude::*;
use vstd::string::*;
use crate::asset::AssetInfo;

verus! {

/// The block in which a call executes.
#[derive(Clone, Copy, Debug, PartialEq, Eq, Structural)]
pub struct Env {
    /// Block time in seconds.
    pub block_time: u64,
}

/// An amount of a native denomination.
#[derive(Debug, PartialEq, Eq)]
pub struct Coin {
    pub denom: String,
    pub amount: u128,
}

/// Who called, and with which native funds attached.
#[derive(Debug, PartialEq, Eq)]
pub struct MessageInfo {
    pub sender: String,
    pub funds: Vec<Coin>,
}

/// A transfer that the host is asked to carry out once the call has committed.
#[derive(Debug, PartialEq, Eq)]
pub enum CosmosMsg {
    /// Ask the token contract `contract_addr` to move `amount` to `recipient`.
    Cw20Transfer { contract_addr: String, recipient: String, amount: u128 },
    /// Send `amount` of the native `denom` to `to_address`.
    BankSend { to_address: String, denom: String, amount: u128 },
}

/// One key/value pair of a response's event log.
#[derive(Debug, PartialEq, Eq)]
pub struct Attribute {
    pub key: String,
    pub value: String,
}

/// What a successful call returns: requested transfers and attributes.
#[derive(Debug, PartialEq, Eq)]
pub struct Response {
    pub messages: Vec<CosmosMsg>,
    pub attributes: Vec<Attribute>,
}

/// A response as a value: the transfers as they are, the attributes as text.
pub struct ResponseView {
    pub messages: Seq<CosmosMsg>,
    pub attributes: Seq<(Seq<char>, Seq<char>)>,
}

/// The key and the value of an attribute as text.
pub open spec fn attribute_text(a: Attribute) -> (Seq<char>, Seq<char>) {
    (a.key@, a.value@)
}

impl View for Response {
    type V = ResponseView;

    open spec fn view(&self) -> ResponseView {
        ResponseView {
            messages: self.messages@,
            attributes: self.attributes@.map_values(|a: Attribute| attribute_text(a)),
        }
    }
}

/// The transfer of `amount` of `asset` to `recipient`.
pub open spec fn transfer_of(asset: AssetInfo, recipient: String, amount: u128) -> CosmosMsg {
    match asset {
        AssetInfo::Cw20(addr) => CosmosMsg::Cw20Transfer { contract_addr: addr, recipient, amount },
        AssetInfo::Native(denom) => CosmosMsg::BankSend { to_address: recipient, denom, amount },
    }
}

/// Builds the transfer of `amount` of `asset` to `recipient`.
pub fn transfer_msg(asset: &AssetInfo, recipient: &String, amount: u128) -> (m: CosmosMsg)
    ensures
        m == transfer_of(*asset, *recipient, amount),
{
    match asset {
        AssetInfo::Cw20(addr) => CosmosMsg::Cw20Transfer {
            contract_addr: addr.clone(),
            recipient: recipient.clone(),
            amount,
        },
        AssetInfo::Native(denom) => CosmosMsg::BankSend {
            to_address: recipient.clone(),
            denom: denom.clone(),
            amount,
        },
    }
}

/// The character of the decimal digit `d`.
pub open spec fn digit_char(d: nat) -> char {
    if d == 0 {
        '0'
    } else if d == 1 {
        '1'
    } else if d == 2 {
        '2'
    } else if d == 3 {
        '3'
    } else if d == 4 {
        '4'
    } else if d == 5 {
        '5'
    } else if d == 6 {
        '6'
    } else if d == 7 {
        '7'
    } else if d == 8 {
        '8'
    } else {
        '9'
    }
}

/// The decimal digits of `n`, most significant first, without padding.
pub open spec fn decimal_text(n: nat) -> Seq<char>
    decreases n,
{
    if n < 10 {
        seq![digit_char(n)]
    } else {
        decimal_text(n / 10).push(digit_char(n % 10))
    }
}

/// Calls `u128::to_string` of std, which is taken to write the number in
/// decimal digits, most significant first, with no sign and no padding.
#[verifier::external_body]
pub(crate) fn u128_to_string(n: u128) -> (s: String)
    ensures
        s@ == decimal_text(n as nat),
{
    n.to_string()
}

/// The decimal text of an amount.
pub fn amount_text(n: u128) -> (s: String)
    ensures
        s@ == decimal_text(n as nat),
{
    u128_to_string(n)
}

/// The text that std's `{:?}` form gives for a string: the string between
/// double quotes, with those characters escaped that std escapes there.
pub uninterp spec fn quoted(text: Seq<char>) -> Seq<char>;

/// Calls `format!` of std with the `{:?}` form on a string. The contract
/// gives the text that comes back its name and claims nothing else of it.
#[verifier::external_body]
pub(crate) fn quote(text: &String) -> (s: String)
    ensures
        s@ == quoted(text@),
{
    format!("{:?}", text)
}

/// The name of the asset that a transfer moves: the address of the token
/// contract, or the denomination.
pub open spec fn asset_name(msg: CosmosMsg) -> Seq<char> {
    match msg {
        CosmosMsg::Cw20Transfer { contract_addr, recipient, amount } => contract_addr@,
        CosmosMsg::BankSend { to_address, denom, amount } => denom@,
    }
}

/// How a transfer is listed in a response, given the name of its asset as it
/// is to be shown: the name under the tag of the kind of asset and, behind a
/// colon, the amount.
pub open spec fn listed(msg: CosmosMsg, name: Seq<char>) -> Seq<char> {
    match msg {
        CosmosMsg::Cw20Transfer { contract_addr, recipient, amount } => "Cw20(Addr("@ + name
            + ")):"@ + decimal_text(amount as nat),
        CosmosMsg::BankSend { to_address, denom, amount } => "Native("@ + name + "):"@
            + decimal_text(amount as nat),
    }
}

/// Writes how a transfer is listed in a response, given the name of its
/// asset as it is to be shown.
pub fn list_transfer(msg: &CosmosMsg, name: &String) -> (s: String)
    ensures
        s@ == listed(*msg, name@),
{
    match msg {
        CosmosMsg::Cw20Transfer { contract_addr, recipient, amount } => {
            let number = amount_text(*amount);
            String::from_str("Cw20(Addr(").concat(name.as_str()).concat(")):").concat(
                number.as_str(),
            )
        },
        CosmosMsg::BankSend { to_address, denom, amount } => {
            let number = amount_text(*amount);
            String::from_str("Native(").concat(name.as_str()).concat("):").concat(number.as_str())
        },
    }
}

/// How a transfer is listed in a response: the name of its asset between
/// quotes under the tag of the kind of asset and, behind a colon, the amount.
pub open spec fn transfer_text(msg: CosmosMsg) -> Seq<char> {
    listed(msg, quoted(asset_name(msg)))
}

/// Writes how a transfer is listed in a response.
pub fn describe_transfer(msg: &CosmosMsg) -> (s: String)
    ensures
        s@ == transfer_text(*msg),
{
    let name = match msg {
        CosmosMsg::Cw20Transfer { contract_addr, recipient, amount } => quote(contract_addr),
        CosmosMsg::BankSend { to_address, denom, amount } => quote(denom),
    };
    list_transfer(msg, &name)
}

/// The texts `texts` one after the other in their order, a comma and a
/// blank between two of them.
pub open spec fn joined(texts: Seq<Seq<char>>) -> Seq<char>
    decreases texts.len(),
{
    if texts.len() == 0 {
        Seq::empty()
    } else if texts.len() == 1 {
        texts[0]
    } else {
        joined(texts.drop_last()) + ", "@ + texts.last()
    }
}

/// The texts that the strings `entries` hold.
pub open spec fn texts_of(entries: Seq<String>) -> Seq<Seq<char>> {
    Seq::new(entries.len(), |i: int| entries[i]@)
}

/// Joins texts, a comma and a blank between two of them.
pub fn join_texts(entries: &Vec<String>) -> (s: String)
    ensures
        s@ == joined(texts_of(entries@)),
{
    let mut text = String::from_str("");
    let mut n: usize = 0;
    proof {
        reveal_strlit("");
        assert(text@ =~= Seq::<char>::empty());
        assert(texts_of(entries@).subrange(0, 0) =~= Seq::<Seq<char>>::empty());
    }
    while n < entries.len()
        invariant
            n <= entries.len(),
            text@ == joined(texts_of(entries@).subrange(0, n as int)),
        decreases entries.len() - n,
    {
        if n > 0 {
            text = text.concat(", ");
        }
        text = text.concat(entries[n].as_str());
        proof {
            let upto = texts_of(entries@).subrange(0, n as int + 1);
            assert(upto.drop_last() =~= texts_of(entries@).subrange(0, n as int));
            assert(upto.last() == entries@[n as int]@);
            if n == 0 {
                assert(text@ =~= entries@[0]@);
            }
        }
        n = n + 1;
    }
    assert(texts_of(entries@).subrange(0, n as int) =~= texts_of(entries@));
    text
}

/// The list of the transfers `messages` as text: one after the other in
/// their order, a comma and a blank between two of them.
pub open spec fn transfers_text(messages: Seq<CosmosMsg>) -> Seq<char> {
    joined(Seq::new(messages.len(), |i: int| transfer_text(messages[i])))
}

/// Writes the list of the transfers `messages` as text.
pub fn describe_transfers(messages: &Vec<CosmosMsg>) -> (s: String)
    ensures
        s@ == transfers_text(messages@),
{
    let mut entries: Vec<String> = Vec::new();
    let mut n: usize = 0;
    while n < messages.len()
        invariant
            n <= messages.len(),
            entries@.len() == n,
            forall|k: int| 0 <= k < n ==> (#[trigger] entries@[k])@ == transfer_text(messages@[k]),
        decreases messages.len() - n,
    {
        let entry = describe_transfer(&messages[n]);
        entries.push(entry);
        n = n + 1;
    }
    assert(texts_of(entries@) =~= Seq::new(
        messages@.len(),
        |i: int| transfer_text(messages@[i]),
    ));
    join_texts(&entries)
}

impl Response {
    /// A response without transfers or attributes.
    pub fn new() -> (r: Response)
        ensures
            r@.messages == Seq::<CosmosMsg>::empty(),
            r@.attributes == Seq::<(Seq<char>, Seq<char>)>::empty(),
    {
        let r = Response { messages: Vec::new(), attributes: Vec::new() };
        assert(r@.attributes =~= Seq::<(Seq<char>, Seq<char>)>::empty());
        r
    }

    /// Appends the attribute `key = value`.
    pub fn add_attribute(self, key: &str, value: String) -> (r: Response)
        ensures
            r@.messages == self@.messages,
            r@.attributes == self@.attributes.push((key@, value@)),
    {
        let mut r = self;
        let ghost before = r.attributes@;
        let attr = Attribute { key: String::from_str(key), value };
        r.attributes.push(attr);
        assert(r@.attributes =~= before.map_values(|a: Attribute| attribute_text(a)).push(
            (key@, value@),
        ));
        r
    }

    /// Appends the attribute `key = value` for a literal value.
    pub fn add_attribute_str(self, key: &str, value: &str) -> (r: Response)
        ensures
            r@.messages == self@.messages,
            r@.attributes == self@.attributes.push((key@, value@)),
    {
        self.add_attribute(key, String::from_str(value))
    }

    /// Appends one transfer request.
    pub fn add_message(self, msg: CosmosMsg) -> (r: Response)
        ensures
            r@.messages == self@.messages.push(msg),
            r@.attributes == self@.attributes,
    {
        let mut r = self;
        r.messages.push(msg);
        r
    }

    /// Appends the transfers and attributes of `other`, in their order.
    pub fn merge(self, other: Response) -> (r: Response)
        ensures
            r@.messages == self@.messages + other@.messages,
            r@.attributes == self@.attributes + other@.attributes,
    {
        let mut r = self;
        let mut other = other;
        let ghost mine = r.attributes@;
        let ghost theirs = other.attributes@;
        r.messages.append(&mut other.messages);
        r.attributes.append(&mut other.attributes);
        assert(r@.attributes =~= mine.map_values(|a: Attribute| attribute_text(a))
            + theirs.map_values(|a: Attribute| attribute_text(a)));
        r
    }

    /// Appends transfer requests in order.
    pub fn add_messages(self, msgs: Vec<CosmosMsg>) -> (r: Response)
        ensures
            r@.messages == self@.messages + msgs@,
            r@.attributes == self@.attributes,
    {
        let mut r = self;
        let mut msgs = msgs;
        r.messages.append(&mut msgs);
        r
    }
}

} // verus!
