//! Routing of incoming messages: which addresses are stored, and which are
//! forwarded to which chain's consumer.

use vstd::prelude::*;
use crate::config::{Config, RouteConfig};
use crate::models::{AddressMap, IncomingMessage};
use crate::sorted::{insert_sorted, lemma_is_sorted_of, lemma_sorted_of_finite, sorted_of, strictly_sorted, strs};
use crate::text::{chars_of, contains_str, decimal, decimal_string, has_infix, lowercase, str_eq, to_lowercase};
use crate::models::{OutputArgs, OutputMessage};
use crate::clients::{delivery_for, Delivery};
use crate::clients::{BnbClient, EthereumClient, SolanaClient};

verus! {

/// The characters of the strings of `v`, as a set.
pub open spec fn set_of(v: Seq<String>) -> Set<Seq<char>> {
    strs(v).to_set()
}

/// The addresses that `m` lists under the chain name `key`.
pub open spec fn chain_addrs(m: Option<AddressMap>, key: Seq<char>) -> Set<Seq<char>> {
    match m {
        None => Set::empty(),
        Some(ps) => Set::new(
            |x: Seq<char>|
                exists|i: int|
                    0 <= i < ps@.len() && (#[trigger] ps@[i]).0@ == key && set_of(ps@[i].1@).contains(x),
        ),
    }
}

/// Law: where each chain name occurs once, the addresses listed under a
/// chain name are exactly those of its entry, as a map from chain name to
/// addresses gives them.
pub proof fn law_one_entry_per_chain(ps: AddressMap, i: int)
    requires
        crate::models::chain_names_distinct(ps@),
        0 <= i < ps@.len(),
    ensures
        chain_addrs(Some(ps), ps@[i].0@) == set_of(ps@[i].1@),
{
    let key = ps@[i].0@;
    assert forall|x: Seq<char>| chain_addrs(Some(ps), key).contains(x) <==> set_of(ps@[i].1@).contains(x) by {
        if chain_addrs(Some(ps), key).contains(x) {
            let j = choose|j: int| 0 <= j < ps@.len() && (#[trigger] ps@[j]).0@ == key && set_of(ps@[j].1@).contains(x);
            if j < i {
                assert(ps@[j].0@ != ps@[i].0@);
            } else if j > i {
                assert(ps@[i].0@ != ps@[j].0@);
            }
        }
    }
    assert(chain_addrs(Some(ps), key) =~= set_of(ps@[i].1@));
}

/// Law: a chain name that no entry has lists no addresses.
pub proof fn law_absent_chain_is_empty(ps: AddressMap, key: Seq<char>)
    requires
        forall|i: int| 0 <= i < ps@.len() ==> (#[trigger] ps@[i]).0@ != key,
    ensures
        chain_addrs(Some(ps), key) == Set::<Seq<char>>::empty(),
{
    assert(chain_addrs(Some(ps), key) =~= Set::<Seq<char>>::empty());
}

/// The addresses that `m` lists under any chain name.
pub open spec fn all_chain_addrs(m: Option<AddressMap>) -> Set<Seq<char>> {
    match m {
        None => Set::empty(),
        Some(ps) => Set::new(
            |x: Seq<char>| exists|i: int| 0 <= i < ps@.len() && set_of((#[trigger] ps@[i]).1@).contains(x),
        ),
    }
}

/// `s` starts with `0x`.
pub open spec fn starts_0x(s: Seq<char>) -> bool {
    s.len() >= 2 && s[0] == '0' && s[1] == 'x'
}

/// The length of `s` in UTF-8 bytes (`str::len`).
pub open spec fn byte_len(s: Seq<char>) -> nat {
    vstd::utf8::encode_utf8(s).len()
}

/// An address shaped like a Solana one: no `0x` prefix, 32 to 44 bytes.
pub open spec fn solana_shaped(s: Seq<char>) -> bool {
    !starts_0x(s) && 32 <= byte_len(s) && byte_len(s) <= 44
}

/// An address shaped like an EVM one: `0x` then 40 more bytes.
pub open spec fn evm_shaped(s: Seq<char>) -> bool {
    starts_0x(s) && byte_len(s) == 42
}

/// The length of `s` in UTF-8 bytes.
pub fn byte_length(s: &str) -> (n: u128)
    ensures
        n == byte_len(s@),
{
    let cs = chars_of(s);
    let mut i = cs.len();
    let mut acc: u128 = 0;
    assert(cs@.skip(cs@.len() as int) =~= Seq::<char>::empty());
    while i > 0
        invariant
            i <= cs@.len(),
            cs@.len() <= usize::MAX,
            cs@ == s@,
            acc == byte_len(cs@.skip(i as int)),
            acc <= 4 * (cs@.len() - i),
        decreases i,
    {
        let c = cs[i - 1];
        let u = c as u32;
        let w: u128 = if u <= 0x7f {
            1
        } else if u <= 0x7ff {
            2
        } else if u <= 0xffff {
            3
        } else {
            4
        };
        proof {
            let t = cs@.skip(i - 1);
            assert(t.drop_first() =~= cs@.skip(i as int));
            assert(t[0] == c);
            vstd::utf8::char_is_scalar(c);
            assert(vstd::utf8::encode_scalar(u).len() == w);
        }
        acc = acc + w;
        i = i - 1;
    }
    assert(cs@.skip(0) =~= cs@);
    acc
}

/// Whether `s` starts with `0x`.
pub fn starts_with_0x(s: &str) -> (r: bool)
    ensures
        r == starts_0x(s@),
{
    let cs = chars_of(s);
    cs.len() >= 2 && cs[0] == '0' && cs[1] == 'x'
}

/// Whether `v` holds a string equal to `s`.
pub fn contains_string(v: &Vec<String>, s: &str) -> (r: bool)
    ensures
        r == set_of(v@).contains(s@),
{
    let mut i: usize = 0;
    while i < v.len()
        invariant
            i <= v@.len(),
            forall|j: int| 0 <= j < i ==> v@[j]@ != s@,
        decreases v@.len() - i,
    {
        if str_eq(v[i].as_str(), s) {
            assert(strs(v@)[i as int] == s@);
            return true;
        }
        i = i + 1;
    }
    proof {
        if set_of(v@).contains(s@) {
            let j = choose|j: int| 0 <= j < strs(v@).len() && strs(v@)[j] == s@;
            assert(v@[j]@ == s@);
        }
    }
    false
}

/// The kinds of filter that a collection applies to a message's generic
/// address list.
pub enum Shape {
    /// Every address.
    Any,
    /// Addresses shaped like Solana ones.
    Solana,
    /// Addresses shaped like EVM ones that `excluded` does not hold.
    EvmNotIn,
    /// Addresses that `excluded` holds.
    In,
}

/// `s` passes the filter `shape`, with `excluded` the list it refers to.
pub open spec fn passes(shape: Shape, s: Seq<char>, excluded: Seq<String>) -> bool {
    match shape {
        Shape::Any => true,
        Shape::Solana => solana_shaped(s),
        Shape::EvmNotIn => evm_shaped(s) && !set_of(excluded).contains(s),
        Shape::In => set_of(excluded).contains(s),
    }
}

fn passes_exec(shape: &Shape, s: &str, excluded: &Vec<String>) -> (r: bool)
    ensures
        r == passes(*shape, s@, excluded@),
{
    match shape {
        Shape::Any => true,
        Shape::Solana => {
            let n = byte_length(s);
            !starts_with_0x(s) && 32 <= n && n <= 44
        },
        Shape::EvmNotIn => starts_with_0x(s) && byte_length(s) == 42 && !contains_string(
            excluded,
            s,
        ),
        Shape::In => contains_string(excluded, s),
    }
}

/// Adds to the sorted set `out` the strings of `v` that pass `shape`.
pub fn add_filtered(out: &mut Vec<String>, v: &Vec<String>, shape: &Shape, excluded: &Vec<String>)
    requires
        strictly_sorted(strs(old(out)@)),
    ensures
        strictly_sorted(strs(final(out)@)),
        strs(final(out)@).to_set() == strs(old(out)@).to_set() + set_of(v@).filter(
            |s: Seq<char>| passes(*shape, s, excluded@),
        ),
{
    let ghost start = strs(out@).to_set();
    let mut i: usize = 0;
    while i < v.len()
        invariant
            i <= v@.len(),
            strictly_sorted(strs(out@)),
            strs(out@).to_set() == start + set_of(v@.take(i as int)).filter(
                |s: Seq<char>| passes(*shape, s, excluded@),
            ),
        decreases v@.len() - i,
    {
        let ghost before = strs(out@).to_set();
        if passes_exec(shape, v[i].as_str(), excluded) {
            insert_sorted(out, v[i].clone());
        }
        proof {
            let p = |s: Seq<char>| passes(*shape, s, excluded@);
            let t0 = strs(v@.take(i as int));
            let t1 = strs(v@.take(i + 1));
            assert(t1 =~= t0.push(v@[i as int]@));
            assert forall|x: Seq<char>| t1.to_set().contains(x) <==> (t0.to_set().contains(x)
                || x == v@[i as int]@) by {
                if t1.to_set().contains(x) {
                    let k = choose|k: int| 0 <= k < t1.len() && t1[k] == x;
                    if k < i {
                        assert(t0[k] == x);
                    }
                }
                if t0.to_set().contains(x) {
                    let k = choose|k: int| 0 <= k < t0.len() && t0[k] == x;
                    assert(t1[k] == x);
                }
                if x == v@[i as int]@ {
                    assert(t1[i as int] == x);
                }
            }
            assert(strs(out@).to_set() =~= start + set_of(v@.take(i + 1)).filter(p));
        }
        i = i + 1;
    }
    assert(v@.take(v@.len() as int) =~= v@);
}

/// Adds to the sorted set `out` the addresses that `m` lists under the
/// chain name `key`, or under any chain name when `key` is `None`.
pub fn add_chain(out: &mut Vec<String>, m: &Option<AddressMap>, key: Option<&str>)
    requires
        strictly_sorted(strs(old(out)@)),
    ensures
        strictly_sorted(strs(final(out)@)),
        strs(final(out)@).to_set() == strs(old(out)@).to_set() + match key {
            Some(k) => chain_addrs(*m, k@),
            None => all_chain_addrs(*m),
        },
{
    let ghost target = match key {
        Some(k) => chain_addrs(*m, k@),
        None => all_chain_addrs(*m),
    };
    match m {
        None => {
            assert(strs(out@).to_set() + target =~= strs(out@).to_set());
        },
        Some(ps) => {
            let ghost start = strs(out@).to_set();
            let none: Vec<String> = Vec::new();
            let mut i: usize = 0;
            while i < ps.len()
                invariant
                    i <= ps@.len(),
                    *m == Some(*ps),
                    strictly_sorted(strs(out@)),
                    target == match key {
                        Some(k) => chain_addrs(*m, k@),
                        None => all_chain_addrs(*m),
                    },
                    forall|x: Seq<char>| #![trigger strs(out@).to_set().contains(x)]
                        strs(out@).to_set().contains(x) <==> (start.contains(x) || exists|j: int|
                            0 <= j < i && (match key {
                                Some(k) => (#[trigger] ps@[j]).0@ == k@,
                                None => true,
                            }) && set_of(ps@[j].1@).contains(x)),
                decreases ps@.len() - i,
            {
                let ghost before = strs(out@).to_set();
                let selected = match key {
                    Some(k) => str_eq(ps[i].0.as_str(), k),
                    None => true,
                };
                if selected {
                    add_filtered(out, &ps[i].1, &Shape::Any, &none);
                    assert(set_of(ps@[i as int].1@).filter(|s: Seq<char>| passes(Shape::Any, s, none@))
                        =~= set_of(ps@[i as int].1@));
                }
                assert forall|x: Seq<char>| #![trigger strs(out@).to_set().contains(x)]
                    strs(out@).to_set().contains(x) <==> (start.contains(x) || exists|j: int|
                        0 <= j < i + 1 && (match key {
                            Some(k) => (#[trigger] ps@[j]).0@ == k@,
                            None => true,
                        }) && set_of(ps@[j].1@).contains(x)) by {
                    if before.contains(x) {
                    }
                }
                i = i + 1;
            }
            assert(strs(out@).to_set() =~= start + target);
        },
    }
}


/// `regex::Regex`, a compiled pattern, held opaque.
#[verifier::external_type_specification]
#[verifier::external_body]
pub struct ExRegex(regex::Regex);

/// `regex::Error`, why a pattern did not compile, held opaque.
#[verifier::external_type_specification]
#[verifier::external_body]
pub struct ExRegexError(regex::Error);

/// Whether `regex::Regex::new` accepts the pattern `pattern`: it is valid
/// syntax and compiles within the default size limit.
pub uninterp spec fn regex_compiles(pattern: Seq<char>) -> bool;

/// Compiles `pattern` with `regex::Regex::new`. Trusted: the call succeeds
/// exactly when the pattern is accepted, which depends on the pattern alone
/// (its syntax and the fixed default size limit); what is accepted is left to
/// the name `regex_compiles`.
#[verifier::external_body]
fn compile_pattern(pattern: &str) -> (r: Result<regex::Regex, regex::Error>)
    ensures
        r is Ok <==> regex_compiles(pattern@),
{
    regex::Regex::new(pattern)
}

/// The message router: the configuration, the compiled pattern of each
/// enabled route, and one client per chain.
pub struct Router {
    config: Config,
    route_patterns: Vec<(usize, regex::Regex)>,
    solana_client: SolanaClient,
    ethereum_client: EthereumClient,
    bnb_client: BnbClient,
}

/// Every enabled route of `routes` has a pattern that compiles.
pub open spec fn patterns_compile(routes: Seq<RouteConfig>) -> bool {
    forall|i: int| 0 <= i < routes.len() && (#[trigger] routes[i]).enabled ==> regex_compiles(routes[i].pattern@)
}

impl Router {
    /// The configuration the router was made with.
    pub closed spec fn settings(&self) -> Config {
        self.config
    }

    /// Makes a router, compiling the pattern of every enabled route; fails
    /// with the error of the first pattern that does not compile.
    pub fn new(config: Config) -> (r: Result<Router, regex::Error>)
        ensures
            r is Ok <==> patterns_compile(config.routes@),
            r matches Ok(router) ==> router.settings() == config,
    {
        let mut route_patterns: Vec<(usize, regex::Regex)> = Vec::new();
        let mut i: usize = 0;
        while i < config.routes.len()
            invariant
                i <= config.routes@.len(),
                forall|j: int| 0 <= j < i && (#[trigger] config.routes@[j]).enabled ==> regex_compiles(config.routes@[j].pattern@),
            decreases config.routes@.len() - i,
        {
            if config.routes[i].enabled {
                match compile_pattern(config.routes[i].pattern.as_str()) {
                    Ok(pattern) => route_patterns.push((i, pattern)),
                    Err(e) => return Err(e),
                }
            }
            i = i + 1;
        }
        Ok(Router {
            config,
            route_patterns,
            solana_client: SolanaClient::new(),
            ethereum_client: EthereumClient::new(),
            bnb_client: BnbClient::new(),
        })
    }
}


/// The Solana token addresses of `m`: its Solana list, the generic addresses
/// shaped like Solana ones, and those listed under `solana`.
pub open spec fn solana_mint_set(m: IncomingMessage) -> Set<Seq<char>> {
    set_of(m.solana_mints@) + set_of(m.mints@).filter(|a: Seq<char>| solana_shaped(a)) + chain_addrs(
        m.addresses,
        "solana"@,
    )
}

/// The Solana pool addresses of `m`.
pub open spec fn solana_pool_set(m: IncomingMessage) -> Set<Seq<char>> {
    set_of(m.solana_pools@) + set_of(m.pools@).filter(|a: Seq<char>| solana_shaped(a)) + chain_addrs(
        m.pool_addresses,
        "solana"@,
    )
}

/// The Ethereum token addresses of `m`: its Ethereum and EVM lists, the
/// generic addresses shaped like EVM ones that its BSC list does not hold,
/// and those listed under `ethereum`.
pub open spec fn ethereum_mint_set(m: IncomingMessage) -> Set<Seq<char>> {
    set_of(m.ethereum_mints@) + set_of(m.evm_mints@) + set_of(m.mints@).filter(
        |a: Seq<char>| evm_shaped(a) && !set_of(m.bsc_mints@).contains(a),
    ) + chain_addrs(m.addresses, "ethereum"@)
}

/// The Ethereum pool addresses of `m`.
pub open spec fn ethereum_pool_set(m: IncomingMessage) -> Set<Seq<char>> {
    set_of(m.ethereum_pools@) + set_of(m.evm_pools@) + chain_addrs(m.pool_addresses, "ethereum"@)
        + chain_addrs(m.pool_addresses, "evm"@)
}

/// The BNB token addresses of `m`: its BSC list, the generic addresses that
/// the BSC list holds, and those listed under `bsc`.
pub open spec fn bnb_mint_set(m: IncomingMessage) -> Set<Seq<char>> {
    set_of(m.bsc_mints@) + set_of(m.mints@).filter(|a: Seq<char>| set_of(m.bsc_mints@).contains(a))
        + chain_addrs(m.addresses, "bsc"@)
}

/// The BNB pool addresses of `m`.
pub open spec fn bnb_pool_set(m: IncomingMessage) -> Set<Seq<char>> {
    set_of(m.bsc_pools@) + chain_addrs(m.pool_addresses, "bsc"@)
}

/// The Base token addresses of `m`.
pub open spec fn base_mint_set(m: IncomingMessage) -> Set<Seq<char>> {
    set_of(m.base_mints@) + chain_addrs(m.addresses, "base"@)
}

/// The Base pool addresses of `m`.
pub open spec fn base_pool_set(m: IncomingMessage) -> Set<Seq<char>> {
    set_of(m.base_pools@) + chain_addrs(m.pool_addresses, "base"@)
}

/// Every token address of `m`, whatever its chain.
pub open spec fn all_mint_set(m: IncomingMessage) -> Set<Seq<char>> {
    set_of(m.mints@) + set_of(m.solana_mints@) + set_of(m.ethereum_mints@) + set_of(m.evm_mints@)
        + set_of(m.bsc_mints@) + set_of(m.base_mints@) + all_chain_addrs(m.addresses)
}

/// Every pool address of `m`, whatever its chain.
pub open spec fn all_pool_set(m: IncomingMessage) -> Set<Seq<char>> {
    set_of(m.pools@) + set_of(m.solana_pools@) + set_of(m.ethereum_pools@) + set_of(m.evm_pools@)
        + set_of(m.bsc_pools@) + set_of(m.base_pools@) + all_chain_addrs(m.pool_addresses)
}

/// `r` lists the elements of `s` in increasing order, each once.
pub open spec fn lists_sorted(r: Seq<String>, s: Set<Seq<char>>) -> bool {
    strs(r) == sorted_of(s) && strictly_sorted(strs(r)) && strs(r).to_set() == s
}

fn add_all(out: &mut Vec<String>, v: &Vec<String>)
    requires
        strictly_sorted(strs(old(out)@)),
    ensures
        strictly_sorted(strs(final(out)@)),
        strs(final(out)@).to_set() == strs(old(out)@).to_set() + set_of(v@),
{
    let none: Vec<String> = Vec::new();
    add_filtered(out, v, &Shape::Any, &none);
    assert(set_of(v@).filter(|s: Seq<char>| passes(Shape::Any, s, none@)) =~= set_of(v@));
}

fn empty_sorted() -> (r: Vec<String>)
    ensures
        r@ == Seq::<String>::empty(),
        strictly_sorted(strs(r@)),
        strs(r@).to_set() == Set::<Seq<char>>::empty(),
{
    let r: Vec<String> = Vec::new();
    assert(strs(r@).to_set() =~= Set::<Seq<char>>::empty());
    r
}

proof fn lemma_lists(r: Seq<String>, s: Set<Seq<char>>)
    requires
        strictly_sorted(strs(r)),
        strs(r).to_set() == s,
    ensures
        lists_sorted(r, s),
{
    crate::sorted::lemma_is_sorted_of(strs(r));
}

impl Router {
    fn collect_solana_mints(&self, msg: &IncomingMessage) -> (r: Vec<String>)
        ensures
            lists_sorted(r@, solana_mint_set(*msg)),
    {
        let none: Vec<String> = Vec::new();
        let mut mints = empty_sorted();
        add_all(&mut mints, &msg.solana_mints);
        add_filtered(&mut mints, &msg.mints, &Shape::Solana, &none);
        add_chain(&mut mints, &msg.addresses, Some("solana"));
        proof {
            assert(set_of(msg.mints@).filter(|s: Seq<char>| passes(Shape::Solana, s, none@))
                =~= set_of(msg.mints@).filter(|a: Seq<char>| solana_shaped(a)));
            assert(strs(mints@).to_set() =~= solana_mint_set(*msg));
            lemma_lists(mints@, solana_mint_set(*msg));
        }
        mints
    }

    fn collect_solana_pools(&self, msg: &IncomingMessage) -> (r: Vec<String>)
        ensures
            lists_sorted(r@, solana_pool_set(*msg)),
    {
        let none: Vec<String> = Vec::new();
        let mut pools = empty_sorted();
        add_all(&mut pools, &msg.solana_pools);
        add_filtered(&mut pools, &msg.pools, &Shape::Solana, &none);
        add_chain(&mut pools, &msg.pool_addresses, Some("solana"));
        proof {
            assert(set_of(msg.pools@).filter(|s: Seq<char>| passes(Shape::Solana, s, none@))
                =~= set_of(msg.pools@).filter(|a: Seq<char>| solana_shaped(a)));
            assert(strs(pools@).to_set() =~= solana_pool_set(*msg));
            lemma_lists(pools@, solana_pool_set(*msg));
        }
        pools
    }

    fn collect_ethereum_mints(&self, msg: &IncomingMessage) -> (r: Vec<String>)
        ensures
            lists_sorted(r@, ethereum_mint_set(*msg)),
    {
        let mut mints = empty_sorted();
        add_all(&mut mints, &msg.ethereum_mints);
        add_all(&mut mints, &msg.evm_mints);
        add_filtered(&mut mints, &msg.mints, &Shape::EvmNotIn, &msg.bsc_mints);
        add_chain(&mut mints, &msg.addresses, Some("ethereum"));
        proof {
            assert(set_of(msg.mints@).filter(
                |s: Seq<char>| passes(Shape::EvmNotIn, s, msg.bsc_mints@),
            ) =~= set_of(msg.mints@).filter(
                |a: Seq<char>| evm_shaped(a) && !set_of(msg.bsc_mints@).contains(a),
            ));
            assert(strs(mints@).to_set() =~= ethereum_mint_set(*msg));
            lemma_lists(mints@, ethereum_mint_set(*msg));
        }
        mints
    }

    fn collect_ethereum_pools(&self, msg: &IncomingMessage) -> (r: Vec<String>)
        ensures
            lists_sorted(r@, ethereum_pool_set(*msg)),
    {
        let mut pools = empty_sorted();
        add_all(&mut pools, &msg.ethereum_pools);
        add_all(&mut pools, &msg.evm_pools);
        add_chain(&mut pools, &msg.pool_addresses, Some("ethereum"));
        add_chain(&mut pools, &msg.pool_addresses, Some("evm"));
        proof {
            assert(strs(pools@).to_set() =~= ethereum_pool_set(*msg));
            lemma_lists(pools@, ethereum_pool_set(*msg));
        }
        pools
    }

    fn collect_bnb_mints(&self, msg: &IncomingMessage) -> (r: Vec<String>)
        ensures
            lists_sorted(r@, bnb_mint_set(*msg)),
    {
        let mut mints = empty_sorted();
        add_all(&mut mints, &msg.bsc_mints);
        add_filtered(&mut mints, &msg.mints, &Shape::In, &msg.bsc_mints);
        add_chain(&mut mints, &msg.addresses, Some("bsc"));
        proof {
            assert(set_of(msg.mints@).filter(|s: Seq<char>| passes(Shape::In, s, msg.bsc_mints@))
                =~= set_of(msg.mints@).filter(|a: Seq<char>| set_of(msg.bsc_mints@).contains(a)));
            assert(strs(mints@).to_set() =~= bnb_mint_set(*msg));
            lemma_lists(mints@, bnb_mint_set(*msg));
        }
        mints
    }

    fn collect_bnb_pools(&self, msg: &IncomingMessage) -> (r: Vec<String>)
        ensures
            lists_sorted(r@, bnb_pool_set(*msg)),
    {
        let mut pools = empty_sorted();
        add_all(&mut pools, &msg.bsc_pools);
        add_chain(&mut pools, &msg.pool_addresses, Some("bsc"));
        proof {
            assert(strs(pools@).to_set() =~= bnb_pool_set(*msg));
            lemma_lists(pools@, bnb_pool_set(*msg));
        }
        pools
    }

    fn collect_base_mints(&self, msg: &IncomingMessage) -> (r: Vec<String>)
        ensures
            lists_sorted(r@, base_mint_set(*msg)),
    {
        let mut mints = empty_sorted();
        add_all(&mut mints, &msg.base_mints);
        add_chain(&mut mints, &msg.addresses, Some("base"));
        proof {
            assert(strs(mints@).to_set() =~= base_mint_set(*msg));
            lemma_lists(mints@, base_mint_set(*msg));
        }
        mints
    }

    fn collect_base_pools(&self, msg: &IncomingMessage) -> (r: Vec<String>)
        ensures
            lists_sorted(r@, base_pool_set(*msg)),
    {
        let mut pools = empty_sorted();
        add_all(&mut pools, &msg.base_pools);
        add_chain(&mut pools, &msg.pool_addresses, Some("base"));
        proof {
            assert(strs(pools@).to_set() =~= base_pool_set(*msg));
            lemma_lists(pools@, base_pool_set(*msg));
        }
        pools
    }

    fn collect_all_mints(&self, msg: &IncomingMessage) -> (r: Vec<String>)
        ensures
            lists_sorted(r@, all_mint_set(*msg)),
    {
        let mut all_mints = empty_sorted();
        add_all(&mut all_mints, &msg.mints);
        add_all(&mut all_mints, &msg.solana_mints);
        add_all(&mut all_mints, &msg.ethereum_mints);
        add_all(&mut all_mints, &msg.evm_mints);
        add_all(&mut all_mints, &msg.bsc_mints);
        add_all(&mut all_mints, &msg.base_mints);
        add_chain(&mut all_mints, &msg.addresses, None);
        proof {
            assert(strs(all_mints@).to_set() =~= all_mint_set(*msg));
            lemma_lists(all_mints@, all_mint_set(*msg));
        }
        all_mints
    }

    fn collect_all_pools(&self, msg: &IncomingMessage) -> (r: Vec<String>)
        ensures
            lists_sorted(r@, all_pool_set(*msg)),
    {
        let mut all_pools = empty_sorted();
        add_all(&mut all_pools, &msg.pools);
        add_all(&mut all_pools, &msg.solana_pools);
        add_all(&mut all_pools, &msg.ethereum_pools);
        add_all(&mut all_pools, &msg.evm_pools);
        add_all(&mut all_pools, &msg.bsc_pools);
        add_all(&mut all_pools, &msg.base_pools);
        add_chain(&mut all_pools, &msg.pool_addresses, None);
        proof {
            assert(strs(all_pools@).to_set() =~= all_pool_set(*msg));
            lemma_lists(all_pools@, all_pool_set(*msg));
        }
        all_pools
    }
}


/// The first enabled route of `routes` named `name`.
pub open spec fn route_named(routes: Seq<RouteConfig>, name: Seq<char>) -> Option<RouteConfig>
    decreases routes.len(),
{
    if routes.len() == 0 {
        None
    } else if routes[0].enabled && routes[0].name@ == name {
        Some(routes[0])
    } else {
        route_named(routes.drop_first(), name)
    }
}

/// The channel that a message of `route` names: the chat id in decimal when
/// the route's channel field asks for an id, the chat name otherwise.
pub open spec fn output_channel(msg: IncomingMessage, route: RouteConfig) -> Seq<char> {
    let f = route.output_format.channel_field@;
    if f == "chat_id"@ || f == "channel_id"@ || f == "id"@ {
        decimal_string(msg.chat_id as int)
    } else {
        msg.chat_name@
    }
}

/// `out` is the message for `route` made from `msg` about the token address
/// `mint` or the pool address `pool`, stamped `timestamp`.
pub open spec fn output_for(
    msg: IncomingMessage,
    route: RouteConfig,
    mint: Option<String>,
    pool: Option<String>,
    timestamp: i64,
    out: OutputMessage,
) -> bool {
    &&& out.context@ == (match mint {
        Some(m) => m@,
        None => msg.context@,
    })
    &&& out.command@ == route.output_format.command@
    &&& out.args.channel@ == output_channel(msg, route)
    &&& out.args.ts == timestamp
    &&& out.args.text@ == msg.text@
    &&& out.pool == pool
}

/// What forwarding to `route` gives: the route's client's delivery for the
/// three known chains, an error for any other route name.
pub open spec fn forward_result(route: RouteConfig, r: Result<Delivery, String>) -> bool {
    if route.name@ == "solana"@ || route.name@ == "ethereum"@ || route.name@ == "bnb"@ {
        delivery_for(route, r)
    } else {
        r matches Err(e) && e@ == "Unknown route: "@ + route.name@
    }
}

impl Router {
    /// The first enabled route named `name`.
    fn find_route_by_name(&self, name: &str) -> (r: Option<&RouteConfig>)
        ensures
            r matches Some(rt) ==> rt.enabled && rt.name@ == name@ && self.config.routes@.contains(*rt),
            r matches Some(rt) ==> route_named(self.config.routes@, name@) == Some(*rt),
            r is None ==> route_named(self.config.routes@, name@) is None,
    {
        let mut i: usize = 0;
        let ghost routes = self.config.routes@;
        assert(routes.skip(0) =~= routes);
        while i < self.config.routes.len()
            invariant
                routes == self.config.routes@,
                i <= routes.len(),
                route_named(routes, name@) == route_named(routes.skip(i as int), name@),
            decreases routes.len() - i,
        {
            assert(routes.skip(i as int)[0] == routes[i as int]);
            assert(routes.skip(i as int).drop_first() =~= routes.skip(i + 1));
            let route = &self.config.routes[i];
            if route.enabled && str_eq(route.name.as_str(), name) {
                return Some(route);
            }
            i = i + 1;
        }
        assert(routes.skip(i as int) =~= Seq::<RouteConfig>::empty());
        None
    }

    /// The channel of the messages of `route`.
    fn get_output_channel(&self, msg: &IncomingMessage, route: &RouteConfig) -> (r: String)
        ensures
            r@ == output_channel(*msg, *route),
    {
        let field = route.output_format.channel_field.as_str();
        if str_eq(field, "chat_id") || str_eq(field, "channel_id") || str_eq(field, "id") {
            decimal(msg.chat_id)
        } else {
            msg.chat_name.clone()
        }
    }

    /// The message for `route` about `mint_address` or `pool_address`.
    fn create_output_message(
        &self,
        msg: &IncomingMessage,
        route: &RouteConfig,
        mint_address: Option<String>,
        pool_address: Option<String>,
        timestamp: i64,
    ) -> (r: OutputMessage)
        ensures
            output_for(*msg, *route, mint_address, pool_address, timestamp, r),
    {
        let context = match &mint_address {
            Some(mint) => mint.clone(),
            None => msg.context.clone(),
        };
        OutputMessage {
            context,
            command: route.output_format.command.clone(),
            args: OutputArgs {
                channel: self.get_output_channel(msg, route),
                ts: timestamp,
                text: msg.text.clone(),
            },
            pool: pool_address,
        }
    }

    /// Whether stored text has its newlines escaped: the setting of the first
    /// configured route, false when there is none.
    fn get_escape_newlines_setting(&self) -> (r: bool)
        ensures
            r == (self.config.routes@.len() > 0 && self.config.routes@[0].output_format.escape_newlines),
    {
        if self.config.routes.len() > 0 {
            self.config.routes[0].output_format.escape_newlines
        } else {
            false
        }
    }

    /// How `output_msg` is delivered on `route`.
    fn forward_to_client(&self, output_msg: &OutputMessage, route: &RouteConfig) -> (r: Result<
        Delivery,
        String,
    >)
        ensures
            forward_result(*route, r),
    {
        let name = route.name.as_str();
        if str_eq(name, "solana") {
            self.solana_client.forward_message(output_msg, route)
        } else if str_eq(name, "ethereum") {
            self.ethereum_client.forward_message(output_msg, route)
        } else if str_eq(name, "bnb") {
            self.bnb_client.forward_message(output_msg, route)
        } else {
            let mut e = "Unknown route: ".to_owned();
            e.append(name);
            Err(e)
        }
    }
}


/// A message to store under one token or pool key.
#[derive(Debug, Clone)]
pub struct StoreRequest {
    pub mint: String,
    pub chat_id: i64,
    pub chat_name: String,
    pub text: String,
    pub timestamp_us: i64,
    pub escape_newlines: bool,
}

/// An output message to deliver to one route's consumer.
#[derive(Debug)]
pub struct ForwardRequest {
    pub route_name: String,
    pub output_address: String,
    pub address: String,
    pub message: OutputMessage,
    pub delivery: Result<Delivery, String>,
}

/// Everything that one incoming message leads to: what is stored, then what
/// is forwarded, in order.
#[derive(Debug)]
pub struct MessagePlan {
    pub timestamp_us: i64,
    pub stores: Vec<StoreRequest>,
    pub forwards: Vec<ForwardRequest>,
}

/// A forwarding target: the route, the address, and whether it is a pool.
pub type Target = (RouteConfig, Seq<char>, bool);

/// One target per address of `addrs`, on the enabled route named `name`;
/// none when there is no such route.
pub open spec fn group(routes: Seq<RouteConfig>, name: Seq<char>, addrs: Seq<Seq<char>>, is_pool: bool) -> Seq<
    Target,
> {
    match route_named(routes, name) {
        Some(rt) => addrs.map_values(|a: Seq<char>| (rt, a, is_pool)),
        None => seq![],
    }
}

/// The forwarding targets of `m`, in order: Solana tokens and pools, Ethereum
/// tokens and pools, BNB tokens and pools, then Base tokens and pools, which
/// go to the Ethereum route.
pub open spec fn forward_targets(routes: Seq<RouteConfig>, m: IncomingMessage) -> Seq<Target> {
    group(routes, "solana"@, sorted_of(solana_mint_set(m)), false) + group(
        routes,
        "solana"@,
        sorted_of(solana_pool_set(m)),
        true,
    ) + group(routes, "ethereum"@, sorted_of(ethereum_mint_set(m)), false) + group(
        routes,
        "ethereum"@,
        sorted_of(ethereum_pool_set(m)),
        true,
    ) + group(routes, "bnb"@, sorted_of(bnb_mint_set(m)), false) + group(
        routes,
        "bnb"@,
        sorted_of(bnb_pool_set(m)),
        true,
    ) + group(routes, "ethereum"@, sorted_of(base_mint_set(m)), false) + group(
        routes,
        "ethereum"@,
        sorted_of(base_pool_set(m)),
        true,
    )
}

/// `out` is the message about address `a` for route `rt`: a token address is
/// the message's context; a pool address is its pool, with the incoming
/// message's context kept.
pub open spec fn message_for(msg: IncomingMessage, rt: RouteConfig, a: Seq<char>, is_pool: bool, timestamp: i64, out: OutputMessage) -> bool {
    &&& out.context@ == (if is_pool {
        msg.context@
    } else {
        a
    })
    &&& out.command@ == rt.output_format.command@
    &&& out.args.channel@ == output_channel(msg, rt)
    &&& out.args.ts == timestamp
    &&& out.args.text@ == msg.text@
    &&& (if is_pool {
        out.pool matches Some(p) && p@ == a
    } else {
        out.pool is None
    })
}

/// `f` forwards the message of target `t`.
pub open spec fn forward_ok(f: ForwardRequest, t: Target, msg: IncomingMessage, timestamp: i64) -> bool {
    &&& f.route_name@ == t.0.name@
    &&& f.output_address@ == t.0.output_address@
    &&& f.address@ == t.1
    &&& message_for(msg, t.0, t.1, t.2, timestamp, f.message)
    &&& forward_result(t.0, f.delivery)
}

/// `fs` forwards the messages of the targets `ts`, one for one.
pub open spec fn forwards_match(fs: Seq<ForwardRequest>, ts: Seq<Target>, msg: IncomingMessage, timestamp: i64) -> bool {
    fs.len() == ts.len() && forall|k: int| 0 <= k < fs.len() ==> forward_ok(#[trigger] fs[k], ts[k], msg, timestamp)
}

/// The store keys of `m`, in order: every token address, then every pool
/// address prefixed with `pool:`.
pub open spec fn store_keys(m: IncomingMessage) -> Seq<Seq<char>> {
    sorted_of(all_mint_set(m)) + sorted_of(all_pool_set(m)).map_values(|p: Seq<char>| "pool:"@ + p)
}

/// `s` stores `msg` under `key`.
pub open spec fn store_ok(s: StoreRequest, key: Seq<char>, msg: IncomingMessage, timestamp: i64, escape: bool) -> bool {
    &&& s.mint@ == key
    &&& s.chat_id == msg.chat_id
    &&& s.chat_name@ == msg.chat_name@
    &&& s.text@ == msg.text@
    &&& s.timestamp_us == timestamp
    &&& s.escape_newlines == escape
}

/// What the router does with `msg` when it handles it at `timestamp`.
pub open spec fn plan_for(routes: Seq<RouteConfig>, msg: IncomingMessage, timestamp: i64, p: MessagePlan) -> bool {
    let keys = store_keys(msg);
    let escape = routes.len() > 0 && routes[0].output_format.escape_newlines;
    &&& p.timestamp_us == timestamp
    &&& p.stores@.len() == keys.len()
    &&& forall|k: int| 0 <= k < keys.len() ==> store_ok(#[trigger] p.stores@[k], keys[k], msg, timestamp, escape)
    &&& forwards_match(p.forwards@, forward_targets(routes, msg), msg, timestamp)
}

/// The key that the address of `f` is stored under: the address itself for
/// a token, prefixed with `pool:` for a pool.
pub open spec fn stored_key(f: ForwardRequest) -> Seq<char> {
    if f.message.pool is Some {
        "pool:"@ + f.address@
    } else {
        f.address@
    }
}

/// Every forwarded address is stored: each forward's key is the key of
/// some store.
pub open spec fn forwards_stored(stores: Seq<StoreRequest>, forwards: Seq<ForwardRequest>) -> bool {
    forall|k: int| 0 <= k < forwards.len() ==> #[trigger] is_stored(stores, forwards[k])
}

/// The key of `f` is the key of some store of `stores`.
pub open spec fn is_stored(stores: Seq<StoreRequest>, f: ForwardRequest) -> bool {
    exists|j: int| 0 <= j < stores.len() && (#[trigger] stores[j]).mint@ == stored_key(f)
}

/// Every target of `ts` is a token address of `mints` or a pool address of
/// `pools`.
pub open spec fn targets_within(ts: Seq<Target>, mints: Set<Seq<char>>, pools: Set<Seq<char>>) -> bool {
    forall|k: int| 0 <= k < ts.len() ==> (if (#[trigger] ts[k]).2 {
        pools.contains(ts[k].1)
    } else {
        mints.contains(ts[k].1)
    })
}

proof fn lemma_group_within(routes: Seq<RouteConfig>, name: Seq<char>, addrs: Seq<Seq<char>>, is_pool: bool, mints: Set<Seq<char>>, pools: Set<Seq<char>>)
    requires
        addrs.to_set().subset_of(if is_pool { pools } else { mints }),
    ensures
        targets_within(group(routes, name, addrs, is_pool), mints, pools),
{
    let g = group(routes, name, addrs, is_pool);
    assert forall|k: int| 0 <= k < g.len() implies (if (#[trigger] g[k]).2 {
        pools.contains(g[k].1)
    } else {
        mints.contains(g[k].1)
    }) by {
        assert(addrs.to_set().contains(addrs[k]));
    }
}

proof fn lemma_concat_within(a: Seq<Target>, b: Seq<Target>, mints: Set<Seq<char>>, pools: Set<Seq<char>>)
    requires
        targets_within(a, mints, pools),
        targets_within(b, mints, pools),
    ensures
        targets_within(a + b, mints, pools),
{
    assert forall|k: int| 0 <= k < (a + b).len() implies (if (#[trigger] (a + b)[k]).2 {
        pools.contains((a + b)[k].1)
    } else {
        mints.contains((a + b)[k].1)
    }) by {
        if k < a.len() {
            assert((a + b)[k] == a[k]);
        } else {
            assert((a + b)[k] == b[k - a.len()]);
        }
    }
}

/// Every forwarding target of `m` is one of its stored token or pool
/// addresses.
proof fn lemma_targets_within(routes: Seq<RouteConfig>, m: IncomingMessage)
    requires
        sorted_of(solana_mint_set(m)).to_set() == solana_mint_set(m),
        sorted_of(solana_pool_set(m)).to_set() == solana_pool_set(m),
        sorted_of(ethereum_mint_set(m)).to_set() == ethereum_mint_set(m),
        sorted_of(ethereum_pool_set(m)).to_set() == ethereum_pool_set(m),
        sorted_of(bnb_mint_set(m)).to_set() == bnb_mint_set(m),
        sorted_of(bnb_pool_set(m)).to_set() == bnb_pool_set(m),
        sorted_of(base_mint_set(m)).to_set() == base_mint_set(m),
        sorted_of(base_pool_set(m)).to_set() == base_pool_set(m),
    ensures
        targets_within(forward_targets(routes, m), all_mint_set(m), all_pool_set(m)),
{
    let am = all_mint_set(m);
    let ap = all_pool_set(m);
    assert(chain_addrs(m.addresses, "solana"@).subset_of(all_chain_addrs(m.addresses)));
    assert(chain_addrs(m.addresses, "ethereum"@).subset_of(all_chain_addrs(m.addresses)));
    assert(chain_addrs(m.addresses, "bsc"@).subset_of(all_chain_addrs(m.addresses)));
    assert(chain_addrs(m.addresses, "base"@).subset_of(all_chain_addrs(m.addresses)));
    assert(chain_addrs(m.pool_addresses, "solana"@).subset_of(all_chain_addrs(m.pool_addresses)));
    assert(chain_addrs(m.pool_addresses, "ethereum"@).subset_of(all_chain_addrs(m.pool_addresses)));
    assert(chain_addrs(m.pool_addresses, "evm"@).subset_of(all_chain_addrs(m.pool_addresses)));
    assert(chain_addrs(m.pool_addresses, "bsc"@).subset_of(all_chain_addrs(m.pool_addresses)));
    assert(chain_addrs(m.pool_addresses, "base"@).subset_of(all_chain_addrs(m.pool_addresses)));
    assert(solana_mint_set(m).subset_of(am));
    assert(solana_pool_set(m).subset_of(ap));
    assert(ethereum_mint_set(m).subset_of(am));
    assert(ethereum_pool_set(m).subset_of(ap));
    assert(bnb_mint_set(m).subset_of(am));
    assert(bnb_pool_set(m).subset_of(ap));
    assert(base_mint_set(m).subset_of(am));
    assert(base_pool_set(m).subset_of(ap));
    let g1 = group(routes, "solana"@, sorted_of(solana_mint_set(m)), false);
    let g2 = group(routes, "solana"@, sorted_of(solana_pool_set(m)), true);
    let g3 = group(routes, "ethereum"@, sorted_of(ethereum_mint_set(m)), false);
    let g4 = group(routes, "ethereum"@, sorted_of(ethereum_pool_set(m)), true);
    let g5 = group(routes, "bnb"@, sorted_of(bnb_mint_set(m)), false);
    let g6 = group(routes, "bnb"@, sorted_of(bnb_pool_set(m)), true);
    let g7 = group(routes, "ethereum"@, sorted_of(base_mint_set(m)), false);
    let g8 = group(routes, "ethereum"@, sorted_of(base_pool_set(m)), true);
    lemma_group_within(routes, "solana"@, sorted_of(solana_mint_set(m)), false, am, ap);
    lemma_group_within(routes, "solana"@, sorted_of(solana_pool_set(m)), true, am, ap);
    lemma_group_within(routes, "ethereum"@, sorted_of(ethereum_mint_set(m)), false, am, ap);
    lemma_group_within(routes, "ethereum"@, sorted_of(ethereum_pool_set(m)), true, am, ap);
    lemma_group_within(routes, "bnb"@, sorted_of(bnb_mint_set(m)), false, am, ap);
    lemma_group_within(routes, "bnb"@, sorted_of(bnb_pool_set(m)), true, am, ap);
    lemma_group_within(routes, "ethereum"@, sorted_of(base_mint_set(m)), false, am, ap);
    lemma_group_within(routes, "ethereum"@, sorted_of(base_pool_set(m)), true, am, ap);
    lemma_concat_within(g1, g2, am, ap);
    lemma_concat_within(g1 + g2, g3, am, ap);
    lemma_concat_within(g1 + g2 + g3, g4, am, ap);
    lemma_concat_within(g1 + g2 + g3 + g4, g5, am, ap);
    lemma_concat_within(g1 + g2 + g3 + g4 + g5, g6, am, ap);
    lemma_concat_within(g1 + g2 + g3 + g4 + g5 + g6, g7, am, ap);
    lemma_concat_within(g1 + g2 + g3 + g4 + g5 + g6 + g7, g8, am, ap);
}

/// Some store of `stores` is under the key `key`.
pub open spec fn key_stored(stores: Seq<StoreRequest>, key: Seq<char>) -> bool {
    exists|j: int| 0 <= j < stores.len() && (#[trigger] stores[j]).mint@ == key
}

/// The addresses of every entry of `ps`, gathered one entry at a time.
spec fn entry_union(ps: Seq<(String, Vec<String>)>) -> Set<Seq<char>>
    decreases ps.len(),
{
    if ps.len() == 0 {
        Set::empty()
    } else {
        entry_union(ps.drop_last()) + set_of(ps.last().1@)
    }
}

proof fn lemma_entry_union(ps: Seq<(String, Vec<String>)>)
    ensures
        entry_union(ps).finite(),
        forall|i: int| 0 <= i < ps.len() ==> set_of((#[trigger] ps[i]).1@).subset_of(entry_union(ps)),
    decreases ps.len(),
{
    broadcast use vstd::seq_lib::seq_to_set_is_finite, vstd::set::axiom_set_union_finite;
    if ps.len() > 0 {
        lemma_entry_union(ps.drop_last());
        assert forall|i: int| 0 <= i < ps.len() implies set_of((#[trigger] ps[i]).1@).subset_of(entry_union(ps)) by {
            if i < ps.len() - 1 {
                assert(ps[i] == ps.drop_last()[i]);
            }
        }
    }
}

proof fn lemma_chain_addrs_finite(m: Option<AddressMap>)
    ensures
        all_chain_addrs(m).finite(),
{
    match m {
        None => {
            assert(all_chain_addrs(m) =~= Set::<Seq<char>>::empty());
        },
        Some(v) => {
            lemma_entry_union(v@);
            assert(all_chain_addrs(m).subset_of(entry_union(v@))) by {
                assert forall|x: Seq<char>| all_chain_addrs(m).contains(x) implies entry_union(v@).contains(x) by {
                    let i = choose|i: int| 0 <= i < v@.len() && set_of((#[trigger] v@[i]).1@).contains(x);
                    assert(set_of(v@[i].1@).subset_of(entry_union(v@)));
                }
            }
            vstd::set_lib::lemma_set_subset_finite(entry_union(v@), all_chain_addrs(m));
        },
    }
}

/// Every store key of `m` is stored by a plan for it, and each token
/// address of `m` is a store key, as is each pool address after `pool:`.
proof fn lemma_store_keys_complete(m: IncomingMessage)
    ensures
        forall|a: Seq<char>| all_mint_set(m).contains(a) ==> store_keys(m).contains(a),
        forall|a: Seq<char>| all_pool_set(m).contains(a) ==> store_keys(m).contains("pool:"@ + a),
{
    broadcast use vstd::seq_lib::seq_to_set_is_finite, vstd::set::axiom_set_union_finite;
    lemma_chain_addrs_finite(m.addresses);
    lemma_chain_addrs_finite(m.pool_addresses);
    lemma_sorted_of_finite(all_mint_set(m));
    lemma_sorted_of_finite(all_pool_set(m));
    let ms = sorted_of(all_mint_set(m));
    let ps = sorted_of(all_pool_set(m));
    let keys = store_keys(m);
    assert forall|a: Seq<char>| all_mint_set(m).contains(a) implies keys.contains(a) by {
        assert(ms.to_set().contains(a));
        let i = choose|i: int| 0 <= i < ms.len() && ms[i] == a;
        assert(keys[i] == a);
    }
    assert forall|a: Seq<char>| all_pool_set(m).contains(a) implies keys.contains("pool:"@ + a) by {
        assert(ps.to_set().contains(a));
        let i = choose|i: int| 0 <= i < ps.len() && ps[i] == a;
        assert(keys[ms.len() + i] == "pool:"@ + a);
    }
}

proof fn lemma_key_stored(routes: Seq<RouteConfig>, msg: IncomingMessage, timestamp: i64, p: MessagePlan, key: Seq<char>)
    requires
        plan_for(routes, msg, timestamp, p),
        store_keys(msg).contains(key),
    ensures
        key_stored(p.stores@, key),
{
    let keys = store_keys(msg);
    let k = choose|k: int| 0 <= k < keys.len() && keys[k] == key;
    assert(store_ok(p.stores@[k], keys[k], msg, timestamp, routes.len() > 0 && routes[0].output_format.escape_newlines));
}

proof fn lemma_in_set_of(v: Seq<String>, j: int)
    requires
        0 <= j < v.len(),
    ensures
        set_of(v).contains(v[j]@),
{
    assert(strs(v)[j] == v[j]@);
}

/// Law: handling a message stores it under every address it mentions: each
/// entry of each token list, and of each chain's entry in `addresses`, under
/// the address itself; each entry of each pool list, and of each chain's
/// entry in `pool_addresses`, under `pool:` and the address. Whatever an
/// address looks like, and whatever the routes.
pub proof fn law_every_address_is_stored(routes: Seq<RouteConfig>, msg: IncomingMessage, timestamp: i64, p: MessagePlan)
    requires
        plan_for(routes, msg, timestamp, p),
    ensures
        forall|j: int| 0 <= j < msg.mints@.len() ==> key_stored(p.stores@, (#[trigger] msg.mints@[j])@),
        forall|j: int| 0 <= j < msg.solana_mints@.len() ==> key_stored(p.stores@, (#[trigger] msg.solana_mints@[j])@),
        forall|j: int| 0 <= j < msg.ethereum_mints@.len() ==> key_stored(p.stores@, (#[trigger] msg.ethereum_mints@[j])@),
        forall|j: int| 0 <= j < msg.evm_mints@.len() ==> key_stored(p.stores@, (#[trigger] msg.evm_mints@[j])@),
        forall|j: int| 0 <= j < msg.bsc_mints@.len() ==> key_stored(p.stores@, (#[trigger] msg.bsc_mints@[j])@),
        forall|j: int| 0 <= j < msg.base_mints@.len() ==> key_stored(p.stores@, (#[trigger] msg.base_mints@[j])@),
        forall|j: int| 0 <= j < msg.pools@.len() ==> key_stored(p.stores@, "pool:"@ + (#[trigger] msg.pools@[j])@),
        forall|j: int| 0 <= j < msg.solana_pools@.len() ==> key_stored(p.stores@, "pool:"@ + (#[trigger] msg.solana_pools@[j])@),
        forall|j: int| 0 <= j < msg.ethereum_pools@.len() ==> key_stored(p.stores@, "pool:"@ + (#[trigger] msg.ethereum_pools@[j])@),
        forall|j: int| 0 <= j < msg.evm_pools@.len() ==> key_stored(p.stores@, "pool:"@ + (#[trigger] msg.evm_pools@[j])@),
        forall|j: int| 0 <= j < msg.bsc_pools@.len() ==> key_stored(p.stores@, "pool:"@ + (#[trigger] msg.bsc_pools@[j])@),
        forall|j: int| 0 <= j < msg.base_pools@.len() ==> key_stored(p.stores@, "pool:"@ + (#[trigger] msg.base_pools@[j])@),
        msg.addresses matches Some(v) ==> forall|i: int, j: int| 0 <= i < v@.len() && 0 <= j < v@[i].1@.len()
            ==> key_stored(p.stores@, (#[trigger] v@[i].1@[j])@),
        msg.pool_addresses matches Some(v) ==> forall|i: int, j: int| 0 <= i < v@.len() && 0 <= j < v@[i].1@.len()
            ==> key_stored(p.stores@, "pool:"@ + (#[trigger] v@[i].1@[j])@),
{
    lemma_store_keys_complete(msg);
    assert forall|a: Seq<char>| all_mint_set(msg).contains(a) implies key_stored(p.stores@, a) by {
        lemma_key_stored(routes, msg, timestamp, p, a);
    }
    assert forall|a: Seq<char>| all_pool_set(msg).contains(a) implies key_stored(p.stores@, "pool:"@ + a) by {
        lemma_key_stored(routes, msg, timestamp, p, "pool:"@ + a);
    }
    assert forall|j: int| 0 <= j < msg.mints@.len() implies key_stored(p.stores@, (#[trigger] msg.mints@[j])@) by {
        lemma_in_set_of(msg.mints@, j);
        assert(all_mint_set(msg).contains(msg.mints@[j]@));
    }
    assert forall|j: int| 0 <= j < msg.solana_mints@.len() implies key_stored(p.stores@, (#[trigger] msg.solana_mints@[j])@) by {
        lemma_in_set_of(msg.solana_mints@, j);
        assert(all_mint_set(msg).contains(msg.solana_mints@[j]@));
    }
    assert forall|j: int| 0 <= j < msg.ethereum_mints@.len() implies key_stored(p.stores@, (#[trigger] msg.ethereum_mints@[j])@) by {
        lemma_in_set_of(msg.ethereum_mints@, j);
        assert(all_mint_set(msg).contains(msg.ethereum_mints@[j]@));
    }
    assert forall|j: int| 0 <= j < msg.evm_mints@.len() implies key_stored(p.stores@, (#[trigger] msg.evm_mints@[j])@) by {
        lemma_in_set_of(msg.evm_mints@, j);
        assert(all_mint_set(msg).contains(msg.evm_mints@[j]@));
    }
    assert forall|j: int| 0 <= j < msg.bsc_mints@.len() implies key_stored(p.stores@, (#[trigger] msg.bsc_mints@[j])@) by {
        lemma_in_set_of(msg.bsc_mints@, j);
        assert(all_mint_set(msg).contains(msg.bsc_mints@[j]@));
    }
    assert forall|j: int| 0 <= j < msg.base_mints@.len() implies key_stored(p.stores@, (#[trigger] msg.base_mints@[j])@) by {
        lemma_in_set_of(msg.base_mints@, j);
        assert(all_mint_set(msg).contains(msg.base_mints@[j]@));
    }
    assert forall|j: int| 0 <= j < msg.pools@.len() implies key_stored(p.stores@, "pool:"@ + (#[trigger] msg.pools@[j])@) by {
        lemma_in_set_of(msg.pools@, j);
        assert(all_pool_set(msg).contains(msg.pools@[j]@));
    }
    assert forall|j: int| 0 <= j < msg.solana_pools@.len() implies key_stored(p.stores@, "pool:"@ + (#[trigger] msg.solana_pools@[j])@) by {
        lemma_in_set_of(msg.solana_pools@, j);
        assert(all_pool_set(msg).contains(msg.solana_pools@[j]@));
    }
    assert forall|j: int| 0 <= j < msg.ethereum_pools@.len() implies key_stored(p.stores@, "pool:"@ + (#[trigger] msg.ethereum_pools@[j])@) by {
        lemma_in_set_of(msg.ethereum_pools@, j);
        assert(all_pool_set(msg).contains(msg.ethereum_pools@[j]@));
    }
    assert forall|j: int| 0 <= j < msg.evm_pools@.len() implies key_stored(p.stores@, "pool:"@ + (#[trigger] msg.evm_pools@[j])@) by {
        lemma_in_set_of(msg.evm_pools@, j);
        assert(all_pool_set(msg).contains(msg.evm_pools@[j]@));
    }
    assert forall|j: int| 0 <= j < msg.bsc_pools@.len() implies key_stored(p.stores@, "pool:"@ + (#[trigger] msg.bsc_pools@[j])@) by {
        lemma_in_set_of(msg.bsc_pools@, j);
        assert(all_pool_set(msg).contains(msg.bsc_pools@[j]@));
    }
    assert forall|j: int| 0 <= j < msg.base_pools@.len() implies key_stored(p.stores@, "pool:"@ + (#[trigger] msg.base_pools@[j])@) by {
        lemma_in_set_of(msg.base_pools@, j);
        assert(all_pool_set(msg).contains(msg.base_pools@[j]@));
    }
    if let Some(v) = msg.addresses {
        assert forall|i: int, j: int| 0 <= i < v@.len() && 0 <= j < v@[i].1@.len()
            implies key_stored(p.stores@, (#[trigger] v@[i].1@[j])@) by {
            lemma_in_set_of(v@[i].1@, j);
            assert(all_chain_addrs(msg.addresses).contains(v@[i].1@[j]@));
            assert(all_mint_set(msg).contains(v@[i].1@[j]@));
        }
    }
    if let Some(v) = msg.pool_addresses {
        assert forall|i: int, j: int| 0 <= i < v@.len() && 0 <= j < v@[i].1@.len()
            implies key_stored(p.stores@, "pool:"@ + (#[trigger] v@[i].1@[j])@) by {
            lemma_in_set_of(v@[i].1@, j);
            assert(all_chain_addrs(msg.pool_addresses).contains(v@[i].1@[j]@));
            assert(all_pool_set(msg).contains(v@[i].1@[j]@));
        }
    }
}

proof fn lemma_route_named(routes: Seq<RouteConfig>, name: Seq<char>)
    ensures
        route_named(routes, name) matches Some(rt) ==> rt.enabled && rt.name@ == name && routes.contains(rt),
    decreases routes.len(),
{
    if routes.len() > 0 {
        lemma_route_named(routes.drop_first(), name);
        if !(routes[0].enabled && routes[0].name@ == name) {
            if let Some(rt) = route_named(routes, name) {
                let i = choose|i: int| 0 <= i < routes.drop_first().len() && routes.drop_first()[i] == rt;
                assert(routes[i + 1] == rt);
            }
        } else {
            assert(routes[0] == routes[0]);
        }
    }
}

/// Every target of `ts` is on an enabled route of `routes`.
spec fn targets_enabled(ts: Seq<Target>, routes: Seq<RouteConfig>) -> bool {
    forall|k: int| 0 <= k < ts.len() ==> (#[trigger] ts[k]).0.enabled && routes.contains(ts[k].0)
}

proof fn lemma_group_enabled(routes: Seq<RouteConfig>, name: Seq<char>, addrs: Seq<Seq<char>>, is_pool: bool)
    ensures
        targets_enabled(group(routes, name, addrs, is_pool), routes),
{
    lemma_route_named(routes, name);
}

proof fn lemma_concat_enabled(a: Seq<Target>, b: Seq<Target>, routes: Seq<RouteConfig>)
    requires
        targets_enabled(a, routes),
        targets_enabled(b, routes),
    ensures
        targets_enabled(a + b, routes),
{
    assert forall|k: int| 0 <= k < (a + b).len() implies (#[trigger] (a + b)[k]).0.enabled && routes.contains((a + b)[k].0) by {
        if k < a.len() {
            assert((a + b)[k] == a[k]);
        } else {
            assert((a + b)[k] == b[k - a.len()]);
        }
    }
}

/// Some route of `routes` is enabled, is named as `f` names its route, and
/// has the output address that `f` goes to.
pub open spec fn on_enabled_route(routes: Seq<RouteConfig>, f: ForwardRequest) -> bool {
    exists|i: int| 0 <= i < routes.len() && (#[trigger] routes[i]).enabled && routes[i].name@ == f.route_name@
        && routes[i].output_address@ == f.output_address@
}

/// Law: a message is forwarded only over enabled routes: each forward of a
/// plan names a route of the configuration that is enabled, and goes to
/// that route's output address. A disabled route receives nothing.
pub proof fn law_forwards_use_enabled_routes(routes: Seq<RouteConfig>, msg: IncomingMessage, timestamp: i64, p: MessagePlan)
    requires
        plan_for(routes, msg, timestamp, p),
    ensures
        forall|k: int| 0 <= k < p.forwards@.len() ==> on_enabled_route(routes, #[trigger] p.forwards@[k]),
{
    let m = msg;
    let g1 = group(routes, "solana"@, sorted_of(solana_mint_set(m)), false);
    let g2 = group(routes, "solana"@, sorted_of(solana_pool_set(m)), true);
    let g3 = group(routes, "ethereum"@, sorted_of(ethereum_mint_set(m)), false);
    let g4 = group(routes, "ethereum"@, sorted_of(ethereum_pool_set(m)), true);
    let g5 = group(routes, "bnb"@, sorted_of(bnb_mint_set(m)), false);
    let g6 = group(routes, "bnb"@, sorted_of(bnb_pool_set(m)), true);
    let g7 = group(routes, "ethereum"@, sorted_of(base_mint_set(m)), false);
    let g8 = group(routes, "ethereum"@, sorted_of(base_pool_set(m)), true);
    lemma_group_enabled(routes, "solana"@, sorted_of(solana_mint_set(m)), false);
    lemma_group_enabled(routes, "solana"@, sorted_of(solana_pool_set(m)), true);
    lemma_group_enabled(routes, "ethereum"@, sorted_of(ethereum_mint_set(m)), false);
    lemma_group_enabled(routes, "ethereum"@, sorted_of(ethereum_pool_set(m)), true);
    lemma_group_enabled(routes, "bnb"@, sorted_of(bnb_mint_set(m)), false);
    lemma_group_enabled(routes, "bnb"@, sorted_of(bnb_pool_set(m)), true);
    lemma_group_enabled(routes, "ethereum"@, sorted_of(base_mint_set(m)), false);
    lemma_group_enabled(routes, "ethereum"@, sorted_of(base_pool_set(m)), true);
    lemma_concat_enabled(g1, g2, routes);
    lemma_concat_enabled(g1 + g2, g3, routes);
    lemma_concat_enabled(g1 + g2 + g3, g4, routes);
    lemma_concat_enabled(g1 + g2 + g3 + g4, g5, routes);
    lemma_concat_enabled(g1 + g2 + g3 + g4 + g5, g6, routes);
    lemma_concat_enabled(g1 + g2 + g3 + g4 + g5 + g6, g7, routes);
    lemma_concat_enabled(g1 + g2 + g3 + g4 + g5 + g6 + g7, g8, routes);
    let ts = forward_targets(routes, m);
    assert(ts == g1 + g2 + g3 + g4 + g5 + g6 + g7 + g8);
    assert forall|k: int| 0 <= k < p.forwards@.len() implies on_enabled_route(routes, #[trigger] p.forwards@[k]) by {
        assert(forward_ok(p.forwards@[k], ts[k], msg, timestamp));
        assert(ts[k].0.enabled && routes.contains(ts[k].0));
        let i = choose|i: int| 0 <= i < routes.len() && routes[i] == ts[k].0;
        assert(0 <= i < routes.len() && routes[i].enabled
            && routes[i].name@ == p.forwards@[k].route_name@
            && routes[i].output_address@ == p.forwards@[k].output_address@);
    }
}

impl Router {
    fn add_stores(&self, out: &mut Vec<StoreRequest>, msg: &IncomingMessage, keys: &Vec<String>, prefix: &str, timestamp: i64, escape: bool)
        ensures
            final(out)@.len() == old(out)@.len() + keys@.len(),
            forall|k: int| 0 <= k < old(out)@.len() ==> final(out)@[k] == old(out)@[k],
            forall|k: int| 0 <= k < keys@.len() ==> store_ok(#[trigger] final(out)@[old(out)@.len() + k], prefix@ + keys@[k]@, *msg, timestamp, escape),
    {
        let ghost start = out@;
        let mut i: usize = 0;
        while i < keys.len()
            invariant
                i <= keys@.len(),
                out@.len() == start.len() + i,
                forall|k: int| 0 <= k < start.len() ==> out@[k] == start[k],
                forall|k: int| 0 <= k < i ==> store_ok(#[trigger] out@[start.len() + k], prefix@ + keys@[k]@, *msg, timestamp, escape),
            decreases keys@.len() - i,
        {
            let mut key = prefix.to_owned();
            key.append(keys[i].as_str());
            out.push(StoreRequest {
                mint: key,
                chat_id: msg.chat_id,
                chat_name: msg.chat_name.clone(),
                text: msg.text.clone(),
                timestamp_us: timestamp,
                escape_newlines: escape,
            });
            assert(out@[start.len() + i as int].mint@ == prefix@ + keys@[i as int]@);
            i = i + 1;
        }
    }

    fn add_forwards(
        &self,
        out: &mut Vec<ForwardRequest>,
        msg: &IncomingMessage,
        name: &str,
        addrs: &Vec<String>,
        is_pool: bool,
        timestamp: i64,
        Ghost(before): Ghost<Seq<Target>>,
    )
        requires
            forwards_match(old(out)@, before, *msg, timestamp),
        ensures
            forwards_match(final(out)@, before + group(self.config.routes@, name@, strs(addrs@), is_pool), *msg, timestamp),
    {
        let ghost g = group(self.config.routes@, name@, strs(addrs@), is_pool);
        match self.find_route_by_name(name) {
            None => {
                assert(before + g =~= before);
            },
            Some(route) => {
                let ghost start = out@;
                let mut i: usize = 0;
                while i < addrs.len()
                    invariant
                        i <= addrs@.len(),
                        route_named(self.config.routes@, name@) == Some(*route),
                        g == group(self.config.routes@, name@, strs(addrs@), is_pool),
                        forwards_match(start, before, *msg, timestamp),
                        out@.len() == start.len() + i,
                        forall|k: int| 0 <= k < start.len() ==> out@[k] == start[k],
                        forall|k: int| 0 <= k < i ==> forward_ok(#[trigger] out@[start.len() + k], g[k], *msg, timestamp),
                    decreases addrs@.len() - i,
                {
                    let address = addrs[i].clone();
                    let message = if is_pool {
                        self.create_output_message(msg, route, None, Some(address.clone()), timestamp)
                    } else {
                        self.create_output_message(msg, route, Some(address.clone()), None, timestamp)
                    };
                    let delivery = self.forward_to_client(&message, route);
                    out.push(ForwardRequest {
                        route_name: route.name.clone(),
                        output_address: route.output_address.clone(),
                        address,
                        message,
                        delivery,
                    });
                    assert(g[i as int] == (*route, addrs@[i as int]@, is_pool));
                    assert(forward_ok(out@[start.len() + i as int], g[i as int], *msg, timestamp));
                    i = i + 1;
                }
                assert forall|k: int| 0 <= k < out@.len() implies forward_ok(#[trigger] out@[k], (before + g)[k], *msg, timestamp) by {
                    if k < start.len() {
                        assert(out@[k] == start[k]);
                    } else {
                        assert(out@[start.len() + (k - start.len())] == out@[k]);
                    }
                }
            },
        }
    }

    /// What handling `msg` at `timestamp` leads to: the messages to store and
    /// the messages to forward.
    pub fn plan_message(&self, msg: &IncomingMessage, timestamp: i64) -> (p: MessagePlan)
        ensures
            plan_for(self.settings().routes@, *msg, timestamp, p),
            forwards_stored(p.stores@, p.forwards@),
    {
        let escape_newlines = self.get_escape_newlines_setting();
        let mut stores: Vec<StoreRequest> = Vec::new();
        let all_mints = self.collect_all_mints(msg);
        self.add_stores(&mut stores, msg, &all_mints, "", timestamp, escape_newlines);
        let all_pools = self.collect_all_pools(msg);
        let ghost mid = stores@;
        self.add_stores(&mut stores, msg, &all_pools, "pool:", timestamp, escape_newlines);
        proof {
            reveal_strlit("");
            let keys = store_keys(*msg);
            let na = strs(all_mints@).len();
            assert(mid.len() == na);
            let sm = sorted_of(all_mint_set(*msg));
            let sp = sorted_of(all_pool_set(*msg));
            assert(sm == strs(all_mints@));
            assert(sp == strs(all_pools@));
            assert forall|k: int| 0 <= k < keys.len() implies store_ok(#[trigger] stores@[k], keys[k], *msg, timestamp, escape_newlines) by {
                if k < na {
                    assert(mid[k] == stores@[k]);
                    assert(keys[k] == sm[k]);
                    assert(""@ + all_mints@[k]@ =~= keys[k]);
                    assert(store_ok(mid[0 + k], ""@ + all_mints@[k]@, *msg, timestamp, escape_newlines));
                } else {
                    let j = k - na;
                    assert(keys[k] == "pool:"@ + sp[j]);
                    assert(sp[j] == all_pools@[j]@);
                    assert(store_ok(stores@[mid.len() + j], "pool:"@ + all_pools@[j]@, *msg, timestamp, escape_newlines));
                }
            }
        }
        let mut forwards: Vec<ForwardRequest> = Vec::new();
        let ghost t0: Seq<Target> = seq![];
        let solana_mints = self.collect_solana_mints(msg);
        self.add_forwards(&mut forwards, msg, "solana", &solana_mints, false, timestamp, Ghost(t0));
        let solana_pools = self.collect_solana_pools(msg);
        self.add_forwards(&mut forwards, msg, "solana", &solana_pools, true, timestamp,
            Ghost(group(self.config.routes@, "solana"@, strs(solana_mints@), false)));
        let ghost t2 = group(self.config.routes@, "solana"@, strs(solana_mints@), false)
            + group(self.config.routes@, "solana"@, strs(solana_pools@), true);
        let eth_mints = self.collect_ethereum_mints(msg);
        self.add_forwards(&mut forwards, msg, "ethereum", &eth_mints, false, timestamp, Ghost(t2));
        let ghost t3 = t2 + group(self.config.routes@, "ethereum"@, strs(eth_mints@), false);
        let eth_pools = self.collect_ethereum_pools(msg);
        self.add_forwards(&mut forwards, msg, "ethereum", &eth_pools, true, timestamp, Ghost(t3));
        let ghost t4 = t3 + group(self.config.routes@, "ethereum"@, strs(eth_pools@), true);
        let bnb_mints = self.collect_bnb_mints(msg);
        self.add_forwards(&mut forwards, msg, "bnb", &bnb_mints, false, timestamp, Ghost(t4));
        let ghost t5 = t4 + group(self.config.routes@, "bnb"@, strs(bnb_mints@), false);
        let bnb_pools = self.collect_bnb_pools(msg);
        self.add_forwards(&mut forwards, msg, "bnb", &bnb_pools, true, timestamp, Ghost(t5));
        let ghost t6 = t5 + group(self.config.routes@, "bnb"@, strs(bnb_pools@), true);
        let base_mints = self.collect_base_mints(msg);
        self.add_forwards(&mut forwards, msg, "ethereum", &base_mints, false, timestamp, Ghost(t6));
        let ghost t7 = t6 + group(self.config.routes@, "ethereum"@, strs(base_mints@), false);
        let base_pools = self.collect_base_pools(msg);
        self.add_forwards(&mut forwards, msg, "ethereum", &base_pools, true, timestamp, Ghost(t7));
        assert(t7 + group(self.config.routes@, "ethereum"@, strs(base_pools@), true) =~= forward_targets(self.config.routes@, *msg));
        proof {
            let ts = forward_targets(self.config.routes@, *msg);
            lemma_targets_within(self.config.routes@, *msg);
            let keys = store_keys(*msg);
            let sm = sorted_of(all_mint_set(*msg));
            let sp = sorted_of(all_pool_set(*msg));
            assert forall|k: int| 0 <= k < forwards@.len() implies #[trigger] is_stored(stores@, forwards@[k]) by {
                let t = ts[k];
                assert(forward_ok(forwards@[k], t, *msg, timestamp));
                if t.2 {
                    assert(all_pool_set(*msg).contains(t.1));
                    assert(sp.to_set().contains(t.1));
                    let i = choose|i: int| 0 <= i < sp.len() && sp[i] == t.1;
                    assert(keys[sm.len() + i] == "pool:"@ + sp[i]);
                    assert(store_ok(stores@[sm.len() + i], keys[sm.len() + i], *msg, timestamp, escape_newlines));
                } else {
                    assert(all_mint_set(*msg).contains(t.1));
                    assert(sm.to_set().contains(t.1));
                    let i = choose|i: int| 0 <= i < sm.len() && sm[i] == t.1;
                    assert(keys[i] == sm[i]);
                    assert(store_ok(stores@[i], keys[i], *msg, timestamp, escape_newlines));
                }
            }
            assert(forwards_stored(stores@, forwards@));
        }
        MessagePlan { timestamp_us: timestamp, stores, forwards }
    }
}


/// The words that mark a message's context as being about BNB Chain.
pub open spec fn bnb_keywords() -> Seq<Seq<char>> {
    seq!["bsc"@, "bnb"@, "binance"@, "bep20"@, "pancake"@, "bakery"@]
}

impl Router {
    /// Whether `context`, in lower case, mentions BNB Chain by one of
    /// [`bnb_keywords`].
    pub fn is_bnb_address(&self, _address: &str, context: &str) -> (r: bool)
        ensures
            r == exists|i: int| 0 <= i < bnb_keywords().len() && has_infix(lowercase(context@), #[trigger] bnb_keywords()[i]),
    {
        let context_lower = to_lowercase(context);
        let c = context_lower.as_str();
        let found = contains_str(c, "bsc") || contains_str(c, "bnb") || contains_str(c, "binance")
            || contains_str(c, "bep20") || contains_str(c, "pancake") || contains_str(c, "bakery");
        proof {
            let k = bnb_keywords();
            assert(k[0] == "bsc"@ && k[1] == "bnb"@ && k[2] == "binance"@ && k[3] == "bep20"@ && k[4] == "pancake"@ && k[5] == "bakery"@);
        }
        found
    }

    /// What handling `msg` now leads to: the plan of [`Router::plan_message`]
    /// for the current time, or `None` when the system clock is set before
    /// the Unix epoch and no timestamp can be taken.
    ///
    /// Every message is planned: the configuration has no list of ignored
    /// channels, so no channel is skipped.
    pub fn process_message(&self, msg: &IncomingMessage) -> (r: Option<MessagePlan>)
        ensures
            r matches Some(p) ==> plan_for(self.settings().routes@, *msg, p.timestamp_us, p)
                && forwards_stored(p.stores@, p.forwards@) && p.timestamp_us >= 0,
    {
        match crate::clock::get_timestamp_micros() {
            Some(timestamp) => Some(self.plan_message(msg, timestamp)),
            None => None,
        }
    }
}

} // verus!
