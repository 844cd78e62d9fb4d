//! Load balancing across a rule's remote peers.
//!
//! A balancer maps each incoming connection to a token `0..n`: token
//! 0 stands for the primary remote, token `k > 0` for extra remote
//! `k - 1`, and `None` (no peers configured) behaves as token 0.
//! Three strategies exist: `off` always answers token 0; `iphash`
//! picks a peer as a deterministic function of the source IP alone;
//! `roundrobin` advances one slot per call, giving a peer of weight
//! `w` exactly `w` consecutive slots per cycle.

use vstd::prelude::*;
use vstd::slice::slice_to_vec;
use crate::addr::IpAddr;
use crate::errors::ConfigError;
use crate::text::{
    spec_find, spec_trim, spec_parse_decimal_lax, find_char, trim, parse_decimal_lax,
};

verus! {

/// The multiplier of the hash that `iphash` folds a source IP with.
pub const HASH_MULT: u64 = 0x9E3779B97F4A7C15;

/// A peer choice: 0 is the primary remote, `k > 0` the extra remote
/// `k - 1`.
#[derive(Debug, Clone, Copy, PartialEq, Eq, Structural)]
pub struct Token(pub u8);

/// Balance strategy.
#[derive(Debug, Clone, Copy, PartialEq, Eq, Structural)]
pub enum Strategy {
    Off,
    IpHash,
    RoundRobin,
}

impl Strategy {
    /// The configuration token naming this strategy.
    pub fn as_config_str(&self) -> (r: &'static str)
        ensures
            spec_parse_strategy(r@) == Some(*self),
    {
        proof {
            broadcast use vstd::string::group_string_axioms;

            reveal_strlit("off");
            reveal_strlit("iphash");
            reveal_strlit("roundrobin");
            assert("off"@.len() == 3);
            assert("iphash"@.len() == 6);
            assert("roundrobin"@.len() == 10);
        }
        match self {
            Strategy::Off => "off",
            Strategy::IpHash => "iphash",
            Strategy::RoundRobin => "roundrobin",
        }
    }
}

/// Balance context to select the next peer.
#[derive(Debug, Clone, Copy)]
pub struct BalanceCtx {
    pub src_ip: IpAddr,
}

/// Sum of the first `k` weights.
pub open spec fn spec_prefix_weight(ws: Seq<u8>, k: int) -> int
    decreases k,
{
    if k <= 0 {
        0
    } else {
        spec_prefix_weight(ws, k - 1) + ws[k - 1]
    }
}

/// The peer whose weight range covers `slot`: peer `k` owns the
/// slots from the sum of the first `k` weights (inclusive) up to the
/// sum of the first `k + 1` (exclusive).
pub open spec fn spec_pick(ws: Seq<u8>, slot: int) -> int
    decreases ws.len(),
{
    if ws.len() == 0 {
        0
    } else if slot < ws[0] {
        0
    } else {
        1 + spec_pick(ws.drop_first(), slot - ws[0])
    }
}

pub proof fn lemma_prefix_weight_bounds(ws: Seq<u8>, k: int)
    requires
        0 <= k <= ws.len(),
    ensures
        0 <= spec_prefix_weight(ws, k) <= 255 * k,
    decreases k,
{
    if k > 0 {
        lemma_prefix_weight_bounds(ws, k - 1);
    }
}

pub proof fn lemma_prefix_weight_monotonic(ws: Seq<u8>, a: int, b: int)
    requires
        0 <= a <= b <= ws.len(),
    ensures
        spec_prefix_weight(ws, a) <= spec_prefix_weight(ws, b),
    decreases b - a,
{
    if a < b {
        lemma_prefix_weight_monotonic(ws, a, b - 1);
    }
}

proof fn lemma_prefix_weight_drop_first(ws: Seq<u8>, k: int)
    requires
        1 <= k <= ws.len(),
    ensures
        spec_prefix_weight(ws, k) == ws[0] + spec_prefix_weight(ws.drop_first(), k - 1),
    decreases k,
{
    assert(spec_prefix_weight(ws, 0) == 0);
    assert(spec_prefix_weight(ws.drop_first(), 0) == 0);
    if k == 1 {
    } else {
        lemma_prefix_weight_drop_first(ws, k - 1);
        assert(ws.drop_first()[k - 2] == ws[k - 1]);
    }
}

/// A slot inside peer `k`'s weight range makes [`spec_pick`] answer
/// `k`.
pub proof fn lemma_pick_characterization(ws: Seq<u8>, slot: int, k: int)
    requires
        0 <= k < ws.len(),
        spec_prefix_weight(ws, k) <= slot < spec_prefix_weight(ws, k) + ws[k],
    ensures
        spec_pick(ws, slot) == k,
    decreases k,
{
    lemma_prefix_weight_bounds(ws, k);
    if k == 0 {
    } else {
        assert(spec_prefix_weight(ws, 0) == 0);
        assert(spec_prefix_weight(ws, 1) == ws[0]);
        lemma_prefix_weight_monotonic(ws, 1, k);
        lemma_prefix_weight_drop_first(ws, k);
        assert(ws.drop_first()[k - 1] == ws[k]);
        lemma_pick_characterization(ws.drop_first(), slot - ws[0], k - 1);
    }
}

/// The deterministic 64-bit hash of a source IP: the address value
/// (its two halves folded together for v6) spread by a fixed odd
/// multiplier, modulo two to the 64.
pub open spec fn spec_ip_hash64(ip: IpAddr) -> int {
    match ip {
        IpAddr::V4(v) => (v * HASH_MULT) % 0x10000000000000000,
        IpAddr::V6(v) => {
            let folded = (v / 0x10000000000000000 + v % 0x10000000000000000)
                % 0x10000000000000000;
            (folded * HASH_MULT) % 0x10000000000000000
        },
    }
}

/// The `iphash` selection: fold the hash of the source IP into the
/// cumulative weight ranges; with no positive weight there is no
/// peer to pick.
pub open spec fn spec_ip_hash_select(ws: Seq<u8>, ip: IpAddr) -> Option<Token> {
    let total = spec_prefix_weight(ws, ws.len() as int);
    if total <= 0 {
        None
    } else {
        Some(Token(spec_pick(ws, spec_ip_hash64(ip) % total) as u8))
    }
}

/// The `roundrobin` selection for the call numbered `counter`.
pub open spec fn spec_rr_select(ws: Seq<u8>, counter: u64) -> Option<Token> {
    let total = spec_prefix_weight(ws, ws.len() as int);
    if total <= 0 {
        None
    } else {
        Some(Token(spec_pick(ws, counter as int % total) as u8))
    }
}

/// The round-robin counter after one call.
pub open spec fn spec_next_counter(c: u64) -> u64 {
    if c == u64::MAX {
        0
    } else {
        (c + 1) as u64
    }
}

/// Law: `iphash` selection is deterministic in the source IP. For a
/// fixed weight vector, two selections for the same IP agree,
/// whenever they happen in the process's life.
pub proof fn lemma_ip_hash_deterministic(
    ws: Seq<u8>,
    ip: IpAddr,
    t1: Option<Token>,
    t2: Option<Token>,
)
    requires
        t1 == spec_ip_hash_select(ws, ip),
        t2 == spec_ip_hash_select(ws, ip),
    ensures
        t1 == t2,
{
}

/// Sum of all weights, at most `255 * 255`.
fn weight_total(ws: &Vec<u8>) -> (r: u32)
    requires
        ws@.len() <= 255,
    ensures
        r == spec_prefix_weight(ws@, ws@.len() as int),
{
    let n = ws.len();
    let mut acc: u32 = 0;
    let mut k: usize = 0;
    while k < n
        invariant
            0 <= k <= n,
            n == ws@.len() <= 255,
            acc == spec_prefix_weight(ws@, k as int),
            acc <= 255 * k,
        decreases n - k,
    {
        acc = acc + ws[k] as u32;
        k = k + 1;
    }
    acc
}

/// The peer owning `slot`; see [`spec_pick`].
fn pick_index(ws: &Vec<u8>, slot: u32) -> (r: usize)
    requires
        ws@.len() <= 255,
        slot < spec_prefix_weight(ws@, ws@.len() as int),
    ensures
        r == spec_pick(ws@, slot as int),
        r < ws@.len(),
{
    let n = ws.len();
    let mut acc: u32 = 0;
    let mut k: usize = 0;
    while k < n
        invariant
            0 <= k <= n,
            n == ws@.len() <= 255,
            acc == spec_prefix_weight(ws@, k as int),
            acc <= 255 * k,
            acc <= slot,
            slot < spec_prefix_weight(ws@, n as int),
        decreases n - k,
    {
        let w = ws[k] as u32;
        if slot < acc + w {
            proof {
                lemma_pick_characterization(ws@, slot as int, k as int);
            }
            return k;
        }
        acc = acc + w;
        k = k + 1;
    }
    proof {
        assert(false);
    }
    0
}

/// The deterministic source-IP hash; see [`spec_ip_hash64`].
fn ip_hash64(ip: IpAddr) -> (r: u64)
    ensures
        r == spec_ip_hash64(ip),
{
    match ip {
        IpAddr::V4(v) => {
            proof {
                assert((v as u128) * (HASH_MULT as u128) < 0x100000000000000000000000000000000)
                    by (nonlinear_arith)
                    requires
                        v <= u32::MAX,
                ;
            }
            let p: u128 = (v as u128) * (HASH_MULT as u128);
            (p % 0x10000000000000000u128) as u64
        },
        IpAddr::V6(v) => {
            let hi: u128 = v / 0x10000000000000000u128;
            let lo: u128 = v % 0x10000000000000000u128;
            let folded: u128 = (hi + lo) % 0x10000000000000000u128;
            proof {
                assert(folded * (HASH_MULT as u128) < 0x100000000000000000000000000000000)
                    by (nonlinear_arith)
                    requires
                        folded < 0x10000000000000000u128,
                        HASH_MULT < 0x10000000000000000u128,
                ;
            }
            let p: u128 = folded * (HASH_MULT as u128);
            (p % 0x10000000000000000u128) as u64
        },
    }
}

/// The `iphash` strategy: a stable map from source IP to peer token,
/// folded over the cumulative weights.
#[derive(Debug, Clone)]
pub struct IpHash {
    pub weights: Vec<u8>,
}

impl IpHash {
    /// Well-formed: the peer count fits the token space.
    pub open spec fn wf(&self) -> bool {
        self.weights@.len() <= 255
    }

    pub fn new(weights: &[u8]) -> (r: IpHash)
        requires
            weights@.len() <= 255,
        ensures
            r.weights@ == weights@,
            r.wf(),
    {
        IpHash { weights: slice_to_vec(weights) }
    }

    /// Number of peers.
    pub fn total(&self) -> (r: u8)
        requires
            self.wf(),
        ensures
            r == self.weights@.len(),
    {
        self.weights.len() as u8
    }

    /// The peer for `ip`; a function of `ip` and the weights alone.
    pub fn next(&self, ip: IpAddr) -> (r: Option<Token>)
        requires
            self.wf(),
        ensures
            r == spec_ip_hash_select(self.weights@, ip),
    {
        let total = weight_total(&self.weights);
        if total == 0 {
            return None;
        }
        let h = ip_hash64(ip);
        let slot = (h % (total as u64)) as u32;
        let k = pick_index(&self.weights, slot);
        Some(Token(k as u8))
    }
}

/// The `roundrobin` strategy: a counter advances one slot per call;
/// a peer of weight `w` owns `w` consecutive slots of each cycle.
#[derive(Debug, Clone)]
pub struct RoundRobin {
    pub weights: Vec<u8>,
    pub counter: u64,
}

impl RoundRobin {
    /// Well-formed: the peer count fits the token space.
    pub open spec fn wf(&self) -> bool {
        self.weights@.len() <= 255
    }

    pub fn new(weights: &[u8]) -> (r: RoundRobin)
        requires
            weights@.len() <= 255,
        ensures
            r.weights@ == weights@,
            r.counter == 0,
            r.wf(),
    {
        RoundRobin { weights: slice_to_vec(weights), counter: 0 }
    }

    /// Number of peers.
    pub fn total(&self) -> (r: u8)
        requires
            self.wf(),
        ensures
            r == self.weights@.len(),
    {
        self.weights.len() as u8
    }

    /// The peer of the current slot; each call advances one slot.
    pub fn next(&mut self) -> (r: Option<Token>)
        requires
            old(self).wf(),
        ensures
            final(self).wf(),
            final(self).weights@ == old(self).weights@,
            r == spec_rr_select(old(self).weights@, old(self).counter),
            r is Some ==> final(self).counter == spec_next_counter(old(self).counter),
            r is None ==> final(self).counter == old(self).counter,
    {
        let total = weight_total(&self.weights);
        if total == 0 {
            return None;
        }
        let slot = (self.counter % (total as u64)) as u32;
        let k = pick_index(&self.weights, slot);
        if self.counter == u64::MAX {
            self.counter = 0;
        } else {
            self.counter = self.counter + 1;
        }
        Some(Token(k as u8))
    }
}

/// Combined load balancer.
#[derive(Debug, Clone)]
pub enum Balancer {
    Off,
    IpHash(IpHash),
    RoundRobin(RoundRobin),
}

impl Balancer {
    /// The strategy this balancer runs.
    pub open spec fn spec_strategy(&self) -> Strategy {
        match self {
            Balancer::Off => Strategy::Off,
            Balancer::IpHash(_) => Strategy::IpHash,
            Balancer::RoundRobin(_) => Strategy::RoundRobin,
        }
    }

    /// The weight vector; empty when balancing is off.
    pub open spec fn spec_weights(&self) -> Seq<u8> {
        match self {
            Balancer::Off => Seq::<u8>::empty(),
            Balancer::IpHash(h) => h.weights@,
            Balancer::RoundRobin(rr) => rr.weights@,
        }
    }

    /// The round-robin slot counter; zero for the other strategies.
    pub open spec fn spec_counter(&self) -> u64 {
        match self {
            Balancer::RoundRobin(rr) => rr.counter,
            _ => 0,
        }
    }

    pub open spec fn wf(&self) -> bool {
        self.spec_weights().len() <= 255
    }

    /// Constructor. `off` keeps no weights at all.
    pub fn new(strategy: Strategy, weights: &[u8]) -> (r: Balancer)
        requires
            weights@.len() <= 255,
        ensures
            r.wf(),
            r.spec_strategy() == strategy,
            strategy == Strategy::Off ==> r == Balancer::Off,
            strategy != Strategy::Off ==> r.spec_weights() == weights@,
            r.spec_counter() == 0,
    {
        match strategy {
            Strategy::Off => Balancer::Off,
            Strategy::IpHash => Balancer::IpHash(IpHash::new(weights)),
            Strategy::RoundRobin => Balancer::RoundRobin(RoundRobin::new(weights)),
        }
    }

    /// Get the current balance strategy.
    pub fn strategy(&self) -> (r: Strategy)
        ensures
            r == self.spec_strategy(),
    {
        match self {
            Balancer::Off => Strategy::Off,
            Balancer::IpHash(_) => Strategy::IpHash,
            Balancer::RoundRobin(_) => Strategy::RoundRobin,
        }
    }

    /// Get total peers.
    pub fn total(&self) -> (r: u8)
        requires
            self.wf(),
        ensures
            r == self.spec_weights().len(),
    {
        match self {
            Balancer::Off => 0,
            Balancer::IpHash(h) => h.total(),
            Balancer::RoundRobin(rr) => rr.total(),
        }
    }

    /// Select the next peer: `off` always answers token 0, `iphash`
    /// a function of the source IP, `roundrobin` the next slot.
    pub fn next(&mut self, ctx: BalanceCtx) -> (r: Option<Token>)
        requires
            old(self).wf(),
        ensures
            final(self).wf(),
            final(self).spec_strategy() == old(self).spec_strategy(),
            final(self).spec_weights() == old(self).spec_weights(),
            match old(self).spec_strategy() {
                Strategy::Off => r == Some(Token(0)),
                Strategy::IpHash => r == spec_ip_hash_select(old(self).spec_weights(), ctx.src_ip),
                Strategy::RoundRobin => r == spec_rr_select(
                    old(self).spec_weights(),
                    old(self).spec_counter(),
                ),
            },
            r is Some && old(self).spec_strategy() == Strategy::RoundRobin
                ==> final(self).spec_counter() == spec_next_counter(old(self).spec_counter()),
            old(self).spec_strategy() != Strategy::RoundRobin ==> *final(self) == *old(self),
    {
        match self {
            Balancer::Off => Some(Token(0)),
            Balancer::IpHash(h) => h.next(ctx.src_ip),
            Balancer::RoundRobin(rr) => rr.next(),
        }
    }
}


impl Default for Balancer {
    fn default() -> (r: Balancer)
        ensures
            r == Balancer::Off,
    {
        Balancer::Off
    }
}

/// The strategy named by a (trimmed) configuration token.
pub open spec fn spec_parse_strategy(s: Seq<char>) -> Option<Strategy> {
    if s == "off"@ {
        Some(Strategy::Off)
    } else if s == "iphash"@ {
        Some(Strategy::IpHash)
    } else if s == "roundrobin"@ {
        Some(Strategy::RoundRobin)
    } else {
        None
    }
}

/// The weight a single comma-separated segment contributes: its
/// trimmed text as a number up to 255, or nothing when it does not
/// parse.
pub open spec fn spec_segment_weight(seg: Seq<char>) -> Seq<u8> {
    match spec_parse_decimal_lax(spec_trim(seg), 255) {
        Some(v) => seq![v as u8],
        None => Seq::<u8>::empty(),
    }
}

/// The weights of a comma-separated list: each parseable segment in
/// order, unparseable segments skipped.
pub open spec fn spec_parse_weights(s: Seq<char>) -> Seq<u8>
    decreases s.len(),
    via spec_parse_weights_decreases
{
    match spec_find(s, ',') {
        None => spec_segment_weight(s),
        Some(i) => spec_segment_weight(s.take(i)) + spec_parse_weights(s.skip(i + 1)),
    }
}

#[via_fn]
proof fn spec_parse_weights_decreases(s: Seq<char>) {
    crate::text::lemma_find_characterization(s, ',');
}

/// A whole balancer configuration `"<strategy>: w1, w2, ..."`:
/// the strategy token before the first colon (trimmed), the weight
/// list after it. Unknown strategy tokens, a missing colon, and more
/// weights than the token space holds do not parse.
pub open spec fn spec_parse_balancer(s: Seq<char>) -> Option<(Strategy, Seq<u8>)> {
    match spec_find(s, ':') {
        None => None,
        Some(i) => match spec_parse_strategy(spec_trim(s.take(i))) {
            None => None,
            Some(st) => {
                let ws = spec_parse_weights(spec_trim(s.skip(i + 1)));
                if ws.len() <= 255 {
                    Some((st, ws))
                } else {
                    None
                }
            },
        },
    }
}

/// Character-for-character string comparison.
fn str_eq(a: &str, b: &str) -> (r: bool)
    ensures
        r == (a@ == b@),
{
    let sa = String::from_str(a);
    let sb = String::from_str(b);
    sa == sb
}

/// The strategy named by a token; see [`spec_parse_strategy`].
pub fn parse_strategy(s: &str) -> (r: Option<Strategy>)
    ensures
        r == spec_parse_strategy(s@),
{
    if str_eq(s, "off") {
        Some(Strategy::Off)
    } else if str_eq(s, "iphash") {
        Some(Strategy::IpHash)
    } else if str_eq(s, "roundrobin") {
        Some(Strategy::RoundRobin)
    } else {
        None
    }
}

/// The weight list of a comma-separated string; see
/// [`spec_parse_weights`].
pub fn parse_weights(s: &str) -> (r: Vec<u8>)
    ensures
        r@ == spec_parse_weights(s@),
    decreases s@.len(),
{
    match find_char(s, ',') {
        None => {
            let mut one: Vec<u8> = Vec::new();
            match parse_decimal_lax(trim(s), 255) {
                Some(v) => {
                    one.push(v as u8);
                    proof {
                        assert(one@ =~= spec_segment_weight(s@));
                    }
                },
                None => {
                    proof {
                        assert(one@ =~= spec_segment_weight(s@));
                    }
                },
            }
            one
        },
        Some(i) => {
            let n = s.unicode_len();
            let head = s.substring_char(0, i);
            let tail = s.substring_char(i + 1, n);
            proof {
                assert(head@ =~= s@.take(i as int));
                assert(tail@ =~= s@.skip(i + 1));
            }
            let mut out: Vec<u8> = Vec::new();
            match parse_decimal_lax(trim(head), 255) {
                Some(v) => {
                    out.push(v as u8);
                    proof {
                        assert(out@ =~= spec_segment_weight(s@.take(i as int)));
                    }
                },
                None => {
                    proof {
                        assert(out@ =~= spec_segment_weight(s@.take(i as int)));
                    }
                },
            }
            proof {
                assert(tail@.len() < s@.len());
            }
            let mut rest = parse_weights(tail);
            out.append(&mut rest);
            proof {
                assert(out@ =~= spec_segment_weight(s@.take(i as int)) + spec_parse_weights(
                    s@.skip(i + 1),
                ));
            }
            out
        },
    }
}

impl Balancer {
    /// Parse a balancer from a string of the form
    /// `"<strategy>: w1, w2, ..."`; see [`spec_parse_balancer`].
    /// An empty weight list is valid; an unknown strategy token or a
    /// missing colon is `InvalidConfig`.
    pub fn parse_from_str(s: &str) -> (r: Result<Balancer, ConfigError>)
        ensures
            match spec_parse_balancer(s@) {
                Some(p) => {
                    &&& r is Ok
                    &&& r->Ok_0.wf()
                    &&& r->Ok_0.spec_strategy() == p.0
                    &&& p.0 == Strategy::Off ==> r->Ok_0 == Balancer::Off
                    &&& p.0 != Strategy::Off ==> r->Ok_0.spec_weights() == p.1
                    &&& r->Ok_0.spec_counter() == 0
                },
                None => r == Err::<Balancer, ConfigError>(ConfigError::InvalidConfig),
            },
    {
        let n = s.unicode_len();
        let i = match find_char(s, ':') {
            None => {
                return Err(ConfigError::InvalidConfig);
            },
            Some(i) => i,
        };
        let head = s.substring_char(0, i);
        let tail = s.substring_char(i + 1, n);
        proof {
            assert(head@ =~= s@.take(i as int));
            assert(tail@ =~= s@.skip(i + 1));
        }
        let st = match parse_strategy(trim(head)) {
            None => {
                return Err(ConfigError::InvalidConfig);
            },
            Some(st) => st,
        };
        let ws = parse_weights(trim(tail));
        if ws.len() > 255 {
            return Err(ConfigError::InvalidConfig);
        }
        Ok(Balancer::new(st, ws.as_slice()))
    }
}

} // verus!
