//! The sample message that the router's test client sends: one Ethereum
//! token address, as a chat bot would report it.

use vstd::prelude::*;

verus! {

/// The addresses of a sample message, by chain.
#[derive(Debug)]
pub struct Addresses {
    pub bsc: Vec<String>,
    pub ethereum: Vec<String>,
    pub solana: Vec<String>,
    pub unknown: Vec<String>,
}

/// A sample incoming message.
#[derive(Debug)]
pub struct MessageData {
    pub addresses: Addresses,
    pub bsc_mints: Vec<String>,
    pub chat_id: i64,
    pub chat_name: String,
    pub ethereum_mints: Vec<String>,
    pub evm_mints: Vec<String>,
    pub images: Vec<String>,
    pub links: Vec<String>,
    pub mints: Vec<String>,
    pub solana_mints: Vec<String>,
    pub text: String,
    pub tokens: Vec<String>,
}

/// The one-element list of `s`.
fn single(s: &str) -> (r: Vec<String>)
    ensures
        r@.len() == 1,
        r@[0]@ == s@,
{
    let mut r: Vec<String> = Vec::new();
    r.push(s.to_owned());
    r
}

impl MessageData {
    /// The sample message about the Ethereum token `mint_address`: listed as
    /// a mint, an Ethereum and an EVM mint and under `ethereum`, with a link
    /// to its token page in the text.
    pub fn new(mint_address: &str) -> (r: Self)
        ensures
            r.addresses.bsc@.len() == 0,
            r.addresses.ethereum@.len() == 1 && r.addresses.ethereum@[0]@ == mint_address@,
            r.addresses.solana@.len() == 0,
            r.addresses.unknown@.len() == 0,
            r.bsc_mints@.len() == 0,
            r.chat_id == -1001441780077,
            r.chat_name@ == "MadApes"@,
            r.ethereum_mints@.len() == 1 && r.ethereum_mints@[0]@ == mint_address@,
            r.evm_mints@.len() == 1 && r.evm_mints@[0]@ == mint_address@,
            r.images@.len() == 0,
            r.links@.len() == 1 && r.links@[0]@ == "https://www.livo.trade/token/"@ + mint_address@,
            r.mints@.len() == 1 && r.mints@[0]@ == mint_address@,
            r.solana_mints@.len() == 0,
            r.text@ == "Rebecca tweet about this cat\n\nhttps://www.livo.trade/token/"@ + mint_address@,
            r.tokens@.len() == 0,
    {
        let mut link = "https://www.livo.trade/token/".to_owned();
        link.append(mint_address);
        let mut text = "Rebecca tweet about this cat\n\nhttps://www.livo.trade/token/".to_owned();
        text.append(mint_address);
        let mut links: Vec<String> = Vec::new();
        links.push(link);
        MessageData {
            addresses: Addresses {
                bsc: Vec::new(),
                ethereum: single(mint_address),
                solana: Vec::new(),
                unknown: Vec::new(),
            },
            bsc_mints: Vec::new(),
            chat_id: -1001441780077,
            chat_name: "MadApes".to_owned(),
            ethereum_mints: single(mint_address),
            evm_mints: single(mint_address),
            images: Vec::new(),
            links,
            mints: single(mint_address),
            solana_mints: Vec::new(),
            text,
            tokens: Vec::new(),
        }
    }
}

} // verus!
