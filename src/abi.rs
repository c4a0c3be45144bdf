use vstd::prelude::*;
use crate::trace::LogRecord;

verus! {

#[verifier::external_type_specification]
#[verifier::external_body]
pub struct ExFunction(ethers::abi::Function);

#[verifier::external_type_specification]
#[verifier::external_body]
pub struct ExEvent(ethers::abi::Event);

/// The digit of `n` in base 16, lower case (`n < 16`).
pub open spec fn hex_digit(n: u8) -> char {
    seq!['0', '1', '2', '3', '4', '5', '6', '7', '8', '9', 'a', 'b', 'c', 'd', 'e', 'f'][n as int]
}

/// `b` written in base 16, two lower-case digits per byte, high digit first.
pub open spec fn hex_of(b: Seq<u8>) -> Seq<char>
    decreases b.len(),
{
    if b.len() == 0 {
        Seq::empty()
    } else {
        hex_of(b.drop_last()) + seq![hex_digit(b.last() / 16), hex_digit(b.last() % 16)]
    }
}

/// Relies on hex::encode: two lower-case digits for each byte, in order.
#[verifier::external_body]
pub(crate) fn encode_hex(b: &[u8]) -> (r: String)
    ensures
        r@ == hex_of(b@),
{
    hex::encode(b)
}

/// Relies on ethers' FunctionExt::selector: the four-byte selector of a function.
#[verifier::external_body]
fn function_selector(f: &ethers::abi::Function) -> (r: [u8; 4]) {
    ethers::abi::FunctionExt::selector(f)
}

/// Relies on ethabi's Event::signature: the 32-byte topic that names an event.
#[verifier::external_body]
fn event_signature(e: &ethers::abi::Event) -> (r: [u8; 32]) {
    e.signature().0
}

/// Relies on ethabi's Function::decode_input: the call arguments after the
/// selector, decoded, each shown in debug form; `None` where decoding fails.
#[verifier::external_body]
pub(crate) fn decode_call_args(f: &ethers::abi::Function, args: &[u8]) -> (r: Option<Vec<String>>) {
    match f.decode_input(args) {
        Ok(tokens) => Some(tokens.iter().map(|t| format!("{:?}", t)).collect()),
        Err(_) => None,
    }
}

/// Relies on ethabi's Event::parse_log: the log's fields, decoded and shown in
/// debug form; `None` where decoding fails.
#[verifier::external_body]
pub(crate) fn decode_log_fields(e: &ethers::abi::Event, log: &LogRecord) -> (r: Option<String>) {
    let topics = log.topics.iter().map(|t| ethers::types::H256::from(*t)).collect();
    let raw = ethers::abi::RawLog { topics, data: log.data.clone() };
    match e.parse_log(raw) {
        Ok(parsed) => Some(format!("{:?}", parsed)),
        Err(_) => None,
    }
}

/// A function of a contract's ABI, with its name and its selector.
pub struct FunctionEntry {
    pub name: String,
    pub selector: [u8; 4],
    pub abi: ethers::abi::Function,
}

impl FunctionEntry {
    /// Wraps an ABI function under `name`, with its selector computed.
    pub fn new(name: String, abi: ethers::abi::Function) -> (r: FunctionEntry)
        ensures
            r.name@ == name@,
    {
        let selector = function_selector(&abi);
        FunctionEntry { name, selector, abi }
    }
}

/// An event of a contract's ABI, with its name and its signature topic.
pub struct EventEntry {
    pub name: String,
    pub signature: [u8; 32],
    pub abi: ethers::abi::Event,
}

impl EventEntry {
    /// Wraps an ABI event under `name`, with its signature computed.
    pub fn new(name: String, abi: ethers::abi::Event) -> (r: EventEntry)
        ensures
            r.name@ == name@,
    {
        let signature = event_signature(&abi);
        EventEntry { name, signature, abi }
    }
}

/// A known contract: its name, its address, and the functions and events of
/// its ABI in the order they are to be tried.
pub struct ContractEntry {
    pub name: String,
    pub address: [u8; 20],
    pub functions: Vec<FunctionEntry>,
    pub events: Vec<EventEntry>,
}

} // verus!
