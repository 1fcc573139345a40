//! Data model of the discovery protocol: keys, endpoints, announcements,
//! responses, and the STUN request/response pair, with their validity rules.

use vstd::prelude::*;

verus! {

use vstd::string::StrSliceExecFns;
use vstd::string::StringExecFns;

/// Protocol tag carried by every announcement and response.
pub const WIREPLUG_PROTOCOL_VERSION: &'static str = "Wireplug_V1";

// ---------------------------------------------------------------------------
// Addresses
// ---------------------------------------------------------------------------
/// An IP address as plain data: a v4 address is its 32-bit value, a v6
/// address its 128-bit value, both in the usual numeric (big-endian octet)
/// reading.
#[derive(Clone, Copy, Debug, PartialEq, Eq, Structural)]
pub enum IpAddress {
    V4(u32),
    V6(u128),
}

/// A socket address: an IP address and a port.
#[derive(Clone, Copy, Debug, PartialEq, Eq, Structural)]
pub struct SockAddr {
    pub ip: IpAddress,
    pub port: u16,
}

// ---------------------------------------------------------------------------
// WireGuard public keys
// ---------------------------------------------------------------------------
/// The characters that may appear in a base64-encoded WireGuard key.
pub open spec fn is_base64_char(c: char) -> bool {
    ||| 'A' <= c && c <= 'Z'
    ||| 'a' <= c && c <= 'z'
    ||| '0' <= c && c <= '9'
    ||| c == '+'
    ||| c == '/'
    ||| c == '='
}

/// A well-formed WireGuard public key: 44 characters, all from the base64
/// alphabet.
pub open spec fn spec_valid_wgkey(s: Seq<char>) -> bool {
    &&& s.len() == 44
    &&& forall|i: int| 0 <= i < s.len() ==> is_base64_char(#[trigger] s[i])
}

/// Decides whether `s` is a well-formed base64 WireGuard public key.
pub fn is_valid_wgkey(s: &str) -> (r: bool)
    ensures
        r == spec_valid_wgkey(s@),
{
    let n = s.unicode_len();
    if n != 44 {
        return false;
    }
    let mut i: usize = 0;
    while i < 44
        invariant
            s@.len() == 44,
            0 <= i <= 44,
            forall|j: int| 0 <= j < i ==> is_base64_char(#[trigger] s@[j]),
        decreases 44 - i,
    {
        let c = s.get_char(i);
        let ok = ('A' <= c && c <= 'Z') || ('a' <= c && c <= 'z') || ('0' <= c && c <= '9') || c
            == '+' || c == '/' || c == '=';
        if !ok {
            return false;
        }
        i += 1;
    }
    true
}

// ---------------------------------------------------------------------------
// Announcement
// ---------------------------------------------------------------------------
/// Mathematical image of an announcement.
pub ghost struct AnnouncementView {
    pub proto: Seq<char>,
    pub initiator_pubkey: Seq<char>,
    pub peer_pubkeys: Seq<Seq<char>>,
    pub listen_port: u16,
    pub lan_addrs: Option<Seq<Seq<char>>>,
}

/// A client-to-server message: the announcing peer's key, the counterparties
/// it wants to discover, its current listen port, and its LAN addresses.
#[derive(Debug, PartialEq, Eq, Clone)]
pub struct WireplugAnnouncement {
    pub proto: String,
    pub initiator_pubkey: String,
    pub peer_pubkeys: Vec<String>,
    pub listen_port: u16,
    pub lan_addrs: Option<Vec<String>>,
}

impl View for WireplugAnnouncement {
    type V = AnnouncementView;

    open spec fn view(&self) -> AnnouncementView {
        AnnouncementView {
            proto: self.proto@,
            initiator_pubkey: self.initiator_pubkey@,
            peer_pubkeys: self.peer_pubkeys.deep_view(),
            listen_port: self.listen_port,
            lan_addrs: self.lan_addrs.deep_view(),
        }
    }
}

/// What it means for an announcement to pass validation: the right protocol
/// tag, a well-formed initiator key, well-formed peer keys, and a listen
/// port in the user range.
pub open spec fn spec_valid_announcement(a: AnnouncementView) -> bool {
    &&& a.proto == WIREPLUG_PROTOCOL_VERSION@
    &&& spec_valid_wgkey(a.initiator_pubkey)
    &&& forall|i: int| 0 <= i < a.peer_pubkeys.len() ==> spec_valid_wgkey(#[trigger] a.peer_pubkeys[i])
    &&& a.listen_port >= 1024
}

impl WireplugAnnouncement {
    /// Builds an announcement carrying the current protocol tag.
    pub fn new(
        initiator_pubkey: &String,
        peer_pubkeys: Vec<String>,
        listen_port: u16,
        lan_addrs: Option<Vec<String>>,
    ) -> (r: Self)
        ensures
            r@ == (AnnouncementView {
                proto: WIREPLUG_PROTOCOL_VERSION@,
                initiator_pubkey: initiator_pubkey@,
                peer_pubkeys: peer_pubkeys.deep_view(),
                listen_port: listen_port,
                lan_addrs: lan_addrs.deep_view(),
            }),
    {
        WireplugAnnouncement {
            proto: WIREPLUG_PROTOCOL_VERSION.to_owned(),
            initiator_pubkey: initiator_pubkey.clone(),
            peer_pubkeys,
            listen_port,
            lan_addrs,
        }
    }

    /// Decides whether the announcement passes validation.
    pub fn valid(&self) -> (r: bool)
        ensures
            r == spec_valid_announcement(self@),
    {
        let tag = String::from_str(WIREPLUG_PROTOCOL_VERSION);
        if !self.proto.eq(&tag) {
            return false;
        }
        if !is_valid_wgkey(self.initiator_pubkey.as_str()) {
            return false;
        }
        let n = self.peer_pubkeys.len();
        let mut i: usize = 0;
        while i < n
            invariant
                n == self.peer_pubkeys.len(),
                0 <= i <= n,
                forall|j: int| 0 <= j < i ==> spec_valid_wgkey(#[trigger] self.peer_pubkeys.deep_view()[j]),
        decreases n - i,
    {
            let ok = is_valid_wgkey(self.peer_pubkeys[i].as_str());
            proof {
                assert(self@.peer_pubkeys[i as int] == self.peer_pubkeys@[i as int]@);
            }
            if !ok {
                proof {
                    assert(!spec_valid_wgkey(self@.peer_pubkeys[i as int]));
                    assert((i as int) < self@.peer_pubkeys.len());
                }
                return false;
            }
            i += 1;
        }
        self.listen_port >= 1024
    }
}

/// Every announcement that passes validation carries a 44-character base64
/// initiator key, 44-character base64 peer keys, and a listen port in the
/// user range.
pub proof fn lemma_valid_announcement_shape(a: AnnouncementView)
    requires
        spec_valid_announcement(a),
    ensures
        a.initiator_pubkey.len() == 44,
        forall|i: int| 0 <= i < a.initiator_pubkey.len() ==> is_base64_char(
            #[trigger] a.initiator_pubkey[i],
        ),
        forall|k: int| 0 <= k < a.peer_pubkeys.len() ==> (#[trigger] a.peer_pubkeys[k]).len() == 44,
        forall|k: int, i: int|
            0 <= k < a.peer_pubkeys.len() && 0 <= i < a.peer_pubkeys[k].len() ==> is_base64_char(
                #[trigger] a.peer_pubkeys[k][i],
            ),
        a.listen_port >= 1024,
{
}

// ---------------------------------------------------------------------------
// Endpoints and responses
// ---------------------------------------------------------------------------
/// Mathematical image of an endpoint.
pub ghost enum EndpointView {
    Unknown,
    LocalNetwork { lan_addrs: Seq<Seq<char>>, listen_port: u16 },
    RemoteNetwork(SockAddr),
}

/// How a counterparty can currently be reached, as far as the rendezvous
/// server knows.
#[derive(Debug, PartialEq, Eq, Clone)]
pub enum WireplugEndpoint {
    Unknown,
    LocalNetwork { lan_addrs: Vec<String>, listen_port: u16 },
    RemoteNetwork(SockAddr),
}

impl View for WireplugEndpoint {
    type V = EndpointView;

    open spec fn view(&self) -> EndpointView {
        match self {
            WireplugEndpoint::Unknown => EndpointView::Unknown,
            WireplugEndpoint::LocalNetwork { lan_addrs, listen_port } => EndpointView::LocalNetwork {
                lan_addrs: lan_addrs.deep_view(),
                listen_port: *listen_port,
            },
            WireplugEndpoint::RemoteNetwork(a) => EndpointView::RemoteNetwork(*a),
        }
    }
}

impl DeepView for WireplugEndpoint {
    type V = EndpointView;

    open spec fn deep_view(&self) -> EndpointView {
        self.view()
    }
}

/// Mathematical image of a response.
pub ghost struct ResponseView {
    pub proto: Seq<char>,
    pub peer_endpoints: Seq<(Seq<char>, EndpointView)>,
}

/// A server-to-client message: one endpoint per requested counterparty.
/// The mapping is kept as a sequence of pairs with pairwise distinct keys.
#[derive(Debug, PartialEq, Eq, Clone)]
pub struct WireplugResponse {
    pub proto: String,
    pub peer_endpoints: Vec<(String, WireplugEndpoint)>,
}

impl View for WireplugResponse {
    type V = ResponseView;

    open spec fn view(&self) -> ResponseView {
        ResponseView { proto: self.proto@, peer_endpoints: self.peer_endpoints.deep_view() }
    }
}

/// First-match lookup in a response's endpoint list.
pub open spec fn spec_lookup_endpoint(
    pairs: Seq<(Seq<char>, EndpointView)>,
    key: Seq<char>,
) -> Option<EndpointView>
    decreases pairs.len(),
{
    if pairs.len() == 0 {
        None
    } else if pairs[0].0 == key {
        Some(pairs[0].1)
    } else {
        spec_lookup_endpoint(pairs.drop_first(), key)
    }
}

impl WireplugResponse {
    /// Wraps an endpoint list into a response with the current protocol tag.
    pub fn from_peer_endpoints(peer_endpoints: Vec<(String, WireplugEndpoint)>) -> (r: Self)
        ensures
            r@.proto == WIREPLUG_PROTOCOL_VERSION@,
            r@.peer_endpoints == peer_endpoints.deep_view(),
    {
        WireplugResponse { proto: WIREPLUG_PROTOCOL_VERSION.to_owned(), peer_endpoints }
    }

    /// Decides whether the response carries the current protocol tag.
    pub fn valid(&self) -> (r: bool)
        ensures
            r == (self@.proto == WIREPLUG_PROTOCOL_VERSION@),
    {
        let tag = String::from_str(WIREPLUG_PROTOCOL_VERSION);
        self.proto.eq(&tag)
    }
}

// ---------------------------------------------------------------------------
// STUN request / response
// ---------------------------------------------------------------------------
/// Mathematical image of a STUN request.
pub ghost struct StunRequestView {
    pub proto: Seq<char>,
    pub port: u16,
}

/// A reflector probe: the client declares the local port it bound.
#[derive(Debug, PartialEq, Eq, Clone)]
pub struct WireplugStunRequest {
    pub proto: String,
    pub port: u16,
}

impl View for WireplugStunRequest {
    type V = StunRequestView;

    open spec fn view(&self) -> StunRequestView {
        StunRequestView { proto: self.proto@, port: self.port }
    }
}

impl WireplugStunRequest {
    /// Builds a probe declaring the given local port.
    pub fn new(port: u16) -> (r: Self)
        ensures
            r@.proto == WIREPLUG_PROTOCOL_VERSION@,
            r@.port == port,
    {
        WireplugStunRequest { proto: WIREPLUG_PROTOCOL_VERSION.to_owned(), port }
    }
}

/// What the reflector observed: the declared source port, or a different one.
#[derive(Clone, Copy, Debug, PartialEq, Eq, Structural)]
pub enum WireplugStunResult {
    SamePort,
    DifferentPort(u16),
}

/// The reflector's reply.
#[derive(Clone, Copy, Debug, PartialEq, Eq, Structural)]
pub struct WireplugStunResponse {
    pub result: WireplugStunResult,
}

impl WireplugStunResponse {
    /// Wraps an observation: a differing observed port if one is given,
    /// otherwise agreement with the declared port.
    pub fn new(port: Option<u16>) -> (r: Self)
        ensures
            r.result == match port {
                Some(p) => WireplugStunResult::DifferentPort(p),
                None => WireplugStunResult::SamePort,
            },
    {
        let res = match port {
            Some(p) => WireplugStunResult::DifferentPort(p),
            None => WireplugStunResult::SamePort,
        };
        WireplugStunResponse { result: res }
    }
}

/// Copies a list of strings; the copy has the same image.
pub fn clone_strings(v: &Vec<String>) -> (r: Vec<String>)
    ensures
        r.deep_view() == v.deep_view(),
{
    let mut c: Vec<String> = Vec::new();
    let n = v.len();
    let mut i: usize = 0;
    while i < n
        invariant
            n == v@.len(),
            0 <= i <= n,
            c@.len() == i,
            forall|x: int| 0 <= x < i ==> (#[trigger] c@[x])@ == (v@[x])@,
        decreases n - i,
    {
        c.push(v[i].clone());
        i += 1;
    }
    proof {
        assert(c.deep_view() =~= v.deep_view());
    }
    c
}

/// Copies an optional list of strings; the copy has the same image.
pub fn clone_opt_strings(o: &Option<Vec<String>>) -> (r: Option<Vec<String>>)
    ensures
        r.deep_view() == o.deep_view(),
{
    match o {
        None => None,
        Some(v) => Some(clone_strings(v)),
    }
}

/// First-match lookup finds a key exactly when some entry carries it.
pub proof fn lemma_lookup_has_key(pairs: Seq<(Seq<char>, EndpointView)>, key: Seq<char>)
    ensures
        spec_lookup_endpoint(pairs, key) is Some <==> (exists|i: int|
            0 <= i < pairs.len() && (#[trigger] pairs[i]).0 == key),
    decreases pairs.len(),
{
    if pairs.len() == 0 {
    } else if pairs[0].0 == key {
    } else {
        lemma_lookup_has_key(pairs.drop_first(), key);
        if spec_lookup_endpoint(pairs, key) is Some {
            let i = choose|i: int|
                0 <= i < pairs.drop_first().len() && (#[trigger] pairs.drop_first()[i]).0 == key;
            assert((pairs[i + 1]).0 == key);
        }
        if exists|i: int| 0 <= i < pairs.len() && (#[trigger] pairs[i]).0 == key {
            let i = choose|i: int| 0 <= i < pairs.len() && (#[trigger] pairs[i]).0 == key;
            assert((pairs.drop_first()[i - 1]).0 == key);
        }
    }
}

/// Appending an entry leaves earlier lookups alone and serves the new key
/// last.
pub proof fn lemma_lookup_push(
    pairs: Seq<(Seq<char>, EndpointView)>,
    x: (Seq<char>, EndpointView),
    key: Seq<char>,
)
    ensures
        spec_lookup_endpoint(pairs.push(x), key) == (match spec_lookup_endpoint(pairs, key) {
            Some(e) => Some(e),
            None => if x.0 == key {
                Some(x.1)
            } else {
                None
            },
        }),
    decreases pairs.len(),
{
    if pairs.len() == 0 {
        reveal_with_fuel(spec_lookup_endpoint, 3);
        assert(pairs.push(x).drop_first() =~= Seq::<(Seq<char>, EndpointView)>::empty());
        assert(pairs.push(x)[0] == x);
    } else {
        assert(pairs.push(x)[0] == pairs[0]);
        assert(pairs.push(x).drop_first() =~= pairs.drop_first().push(x));
        lemma_lookup_push(pairs.drop_first(), x, key);
    }
}

} // verus!
