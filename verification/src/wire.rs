//! The message layer of the wire format: addresses, endpoints, the four
//! protocol messages, and the length framing, with encoders, decoders and
//! the round-trip laws connecting them.

use vstd::prelude::*;

use crate::codec::{
    dec_str_list, dec_string, dec_u16, dec_u32, enc_str_list, enc_string, enc_u16, enc_u32,
    lemma_prefix_split, lemma_rt_str_list, lemma_rt_string, lemma_rt_u16, lemma_rt_u32,
    prefix_at, push_str_list, push_string, push_u16, push_u32, read_str_list, read_string,
    read_u16, read_u32, strs_bounded,
};
use crate::protocol::{
    AnnouncementView, EndpointView, IpAddress, ResponseView, SockAddr, StunRequestView,
    WireplugAnnouncement, WireplugEndpoint, WireplugResponse, WireplugStunRequest,
    WireplugStunResponse, WireplugStunResult,
};
use crate::MAX_MESSAGE_SIZE;

verus! {

// ---------------------------------------------------------------------------
// Optional string lists
// ---------------------------------------------------------------------------
/// An optional string list: a flag byte, then the list when present.
pub open spec fn enc_opt_strs(o: Option<Seq<Seq<char>>>) -> Seq<u8> {
    match o {
        None => seq![0u8],
        Some(l) => seq![1u8] + enc_str_list(l),
    }
}

/// Decoder for an optional string list.
pub open spec fn dec_opt_strs(s: Seq<u8>, i: int) -> Option<(Option<Seq<Seq<char>>>, int)> {
    if 0 <= i && i < s.len() {
        if s[i] == 0u8 {
            Some((None, i + 1))
        } else if s[i] == 1u8 {
            match dec_str_list(s, i + 1) {
                Some((l, j)) => Some((Some(l), j)),
                None => None,
            }
        } else {
            None
        }
    } else {
        None
    }
}

/// An optional string list laid down at `i` decodes to itself.
pub proof fn lemma_rt_opt_strs(s: Seq<u8>, i: int, o: Option<Seq<Seq<char>>>)
    requires
        prefix_at(s, i, enc_opt_strs(o)),
        (match o {
            Some(l) => l.len() <= u32::MAX && strs_bounded(l),
            None => true,
        }),
    ensures
        dec_opt_strs(s, i) == Some((o, i + enc_opt_strs(o).len())),
{
    match o {
        None => {
            assert(s[i] == s.subrange(i, i + 1)[0]);
        },
        Some(l) => {
            lemma_prefix_split(s, i, seq![1u8], enc_str_list(l));
            assert(s[i] == s.subrange(i, i + 1)[0]);
            lemma_rt_str_list(s, i + 1, l);
        },
    }
}

// ---------------------------------------------------------------------------
// 128-bit words (for v6 addresses)
// ---------------------------------------------------------------------------
/// The four little-endian words of a 128-bit value, low word first.
pub open spec fn enc_u128(v: u128) -> Seq<u8> {
    enc_u32((v & 0xffff_ffff) as u32) + enc_u32(((v >> 32) & 0xffff_ffff) as u32) + enc_u32(
        ((v >> 64) & 0xffff_ffff) as u32,
    ) + enc_u32(((v >> 96) & 0xffff_ffff) as u32)
}

/// The 128-bit value read from four little-endian words.
pub open spec fn combine_u128(w0: u32, w1: u32, w2: u32, w3: u32) -> u128 {
    (w0 as u128) | ((w1 as u128) << 32) | ((w2 as u128) << 64) | ((w3 as u128) << 96)
}

/// Reading back the four words of a 128-bit value yields the value.
pub proof fn lemma_u128_round(v: u128)
    ensures
        combine_u128(
            (v & 0xffff_ffff) as u32,
            ((v >> 32) & 0xffff_ffff) as u32,
            ((v >> 64) & 0xffff_ffff) as u32,
            ((v >> 96) & 0xffff_ffff) as u32,
        ) == v,
{
    assert(((v & 0xffff_ffff) as u32 as u128) | (((v >> 32) & 0xffff_ffff) as u32 as u128) << 32 | (
    ((v >> 64) & 0xffff_ffff) as u32 as u128) << 64 | (((v >> 96)
        & 0xffff_ffff) as u32 as u128) << 96 == v) by (bit_vector);
}

/// Decoder for a 128-bit value.
pub open spec fn dec_u128(s: Seq<u8>, i: int) -> Option<(u128, int)> {
    match dec_u32(s, i) {
        Some((w0, i1)) => match dec_u32(s, i1) {
            Some((w1, i2)) => match dec_u32(s, i2) {
                Some((w2, i3)) => match dec_u32(s, i3) {
                    Some((w3, i4)) => Some((combine_u128(w0, w1, w2, w3), i4)),
                    None => None,
                },
                None => None,
            },
            None => None,
        },
        None => None,
    }
}

/// A 128-bit value laid down at `i` decodes to itself.
pub proof fn lemma_rt_u128(s: Seq<u8>, i: int, v: u128)
    requires
        prefix_at(s, i, enc_u128(v)),
    ensures
        dec_u128(s, i) == Some((v, i + 16)),
{
    let w0 = (v & 0xffff_ffff) as u32;
    let w1 = ((v >> 32) & 0xffff_ffff) as u32;
    let w2 = ((v >> 64) & 0xffff_ffff) as u32;
    let w3 = ((v >> 96) & 0xffff_ffff) as u32;
    assert(enc_u128(v) =~= enc_u32(w0) + (enc_u32(w1) + (enc_u32(w2) + enc_u32(w3))));
    lemma_prefix_split(s, i, enc_u32(w0), enc_u32(w1) + (enc_u32(w2) + enc_u32(w3)));
    lemma_prefix_split(s, i + 4, enc_u32(w1), enc_u32(w2) + enc_u32(w3));
    lemma_prefix_split(s, i + 8, enc_u32(w2), enc_u32(w3));
    lemma_rt_u32(s, i, w0);
    lemma_rt_u32(s, i + 4, w1);
    lemma_rt_u32(s, i + 8, w2);
    lemma_rt_u32(s, i + 12, w3);
    lemma_u128_round(v);
}

/// Appends a 128-bit value as four little-endian words.
pub fn push_u128(out: &mut Vec<u8>, v: u128)
    ensures
        final(out)@ == old(out)@ + enc_u128(v),
{
    push_u32(out, (v & 0xffff_ffff) as u32);
    push_u32(out, ((v >> 32) & 0xffff_ffff) as u32);
    push_u32(out, ((v >> 64) & 0xffff_ffff) as u32);
    push_u32(out, ((v >> 96) & 0xffff_ffff) as u32);
    assert(final(out)@ =~= old(out)@ + enc_u128(v));
}

/// Reads a 128-bit value at `i`.
pub fn read_u128(s: &Vec<u8>, i: usize) -> (r: Option<(u128, usize)>)
    ensures
        (match r {
            Some((v, j)) => dec_u128(s@, i as int) == Some((v, j as int)),
            None => dec_u128(s@, i as int) is None,
        }),
{
    let (w0, i1) = match read_u32(s, i) {
        Some(p) => p,
        None => {
            return None;
        },
    };
    let (w1, i2) = match read_u32(s, i1) {
        Some(p) => p,
        None => {
            return None;
        },
    };
    let (w2, i3) = match read_u32(s, i2) {
        Some(p) => p,
        None => {
            return None;
        },
    };
    let (w3, i4) = match read_u32(s, i3) {
        Some(p) => p,
        None => {
            return None;
        },
    };
    let v = (w0 as u128) | ((w1 as u128) << 32) | ((w2 as u128) << 64) | ((w3 as u128) << 96);
    Some((v, i4))
}

// ---------------------------------------------------------------------------
// Addresses
// ---------------------------------------------------------------------------
/// An IP address: a discriminant word, then the address value.
pub open spec fn enc_ip(ip: IpAddress) -> Seq<u8> {
    match ip {
        IpAddress::V4(a) => enc_u32(0) + enc_u32(a),
        IpAddress::V6(a) => enc_u32(1) + enc_u128(a),
    }
}

/// Decoder for an IP address.
pub open spec fn dec_ip(s: Seq<u8>, i: int) -> Option<(IpAddress, int)> {
    match dec_u32(s, i) {
        Some((d, j)) => if d == 0 {
            match dec_u32(s, j) {
                Some((a, k)) => Some((IpAddress::V4(a), k)),
                None => None,
            }
        } else if d == 1 {
            match dec_u128(s, j) {
                Some((a, k)) => Some((IpAddress::V6(a), k)),
                None => None,
            }
        } else {
            None
        },
        None => None,
    }
}

/// An IP address laid down at `i` decodes to itself.
pub proof fn lemma_rt_ip(s: Seq<u8>, i: int, ip: IpAddress)
    requires
        prefix_at(s, i, enc_ip(ip)),
    ensures
        dec_ip(s, i) == Some((ip, i + enc_ip(ip).len())),
{
    match ip {
        IpAddress::V4(a) => {
            lemma_prefix_split(s, i, enc_u32(0), enc_u32(a));
            lemma_rt_u32(s, i, 0);
            lemma_rt_u32(s, i + 4, a);
        },
        IpAddress::V6(a) => {
            lemma_prefix_split(s, i, enc_u32(1), enc_u128(a));
            lemma_rt_u32(s, i, 1);
            lemma_rt_u128(s, i + 4, a);
        },
    }
}

/// Appends an IP address.
pub fn push_ip(out: &mut Vec<u8>, ip: &IpAddress)
    ensures
        final(out)@ == old(out)@ + enc_ip(*ip),
{
    match ip {
        IpAddress::V4(a) => {
            push_u32(out, 0);
            push_u32(out, *a);
        },
        IpAddress::V6(a) => {
            push_u32(out, 1);
            push_u128(out, *a);
        },
    }
    assert(final(out)@ =~= old(out)@ + enc_ip(*ip));
}

/// Reads an IP address at `i`.
pub fn read_ip(s: &Vec<u8>, i: usize) -> (r: Option<(IpAddress, usize)>)
    ensures
        (match r {
            Some((v, j)) => dec_ip(s@, i as int) == Some((v, j as int)),
            None => dec_ip(s@, i as int) is None,
        }),
{
    let (d, j) = match read_u32(s, i) {
        Some(p) => p,
        None => {
            return None;
        },
    };
    if d == 0 {
        match read_u32(s, j) {
            Some((a, k)) => Some((IpAddress::V4(a), k)),
            None => None,
        }
    } else if d == 1 {
        match read_u128(s, j) {
            Some((a, k)) => Some((IpAddress::V6(a), k)),
            None => None,
        }
    } else {
        None
    }
}

/// A socket address: the IP address, then the port.
pub open spec fn enc_sockaddr(sa: SockAddr) -> Seq<u8> {
    enc_ip(sa.ip) + enc_u16(sa.port)
}

/// Decoder for a socket address.
pub open spec fn dec_sockaddr(s: Seq<u8>, i: int) -> Option<(SockAddr, int)> {
    match dec_ip(s, i) {
        Some((ip, j)) => match dec_u16(s, j) {
            Some((port, k)) => Some((SockAddr { ip, port }, k)),
            None => None,
        },
        None => None,
    }
}

/// A socket address laid down at `i` decodes to itself.
pub proof fn lemma_rt_sockaddr(s: Seq<u8>, i: int, sa: SockAddr)
    requires
        prefix_at(s, i, enc_sockaddr(sa)),
    ensures
        dec_sockaddr(s, i) == Some((sa, i + enc_sockaddr(sa).len())),
{
    lemma_prefix_split(s, i, enc_ip(sa.ip), enc_u16(sa.port));
    lemma_rt_ip(s, i, sa.ip);
    lemma_rt_u16(s, i + enc_ip(sa.ip).len(), sa.port);
}

/// Appends a socket address.
pub fn push_sockaddr(out: &mut Vec<u8>, sa: &SockAddr)
    ensures
        final(out)@ == old(out)@ + enc_sockaddr(*sa),
{
    push_ip(out, &sa.ip);
    push_u16(out, sa.port);
    assert(final(out)@ =~= old(out)@ + enc_sockaddr(*sa));
}

/// Reads a socket address at `i`.
pub fn read_sockaddr(s: &Vec<u8>, i: usize) -> (r: Option<(SockAddr, usize)>)
    ensures
        (match r {
            Some((v, j)) => dec_sockaddr(s@, i as int) == Some((v, j as int)),
            None => dec_sockaddr(s@, i as int) is None,
        }),
{
    let (ip, j) = match read_ip(s, i) {
        Some(p) => p,
        None => {
            return None;
        },
    };
    match read_u16(s, j) {
        Some((port, k)) => Some((SockAddr { ip, port }, k)),
        None => None,
    }
}

// ---------------------------------------------------------------------------
// Endpoints
// ---------------------------------------------------------------------------
/// An endpoint: a discriminant word, then the variant's payload.
pub open spec fn enc_endpoint(e: EndpointView) -> Seq<u8> {
    match e {
        EndpointView::Unknown => enc_u32(0),
        EndpointView::LocalNetwork { lan_addrs, listen_port } => enc_u32(1) + enc_str_list(
            lan_addrs,
        ) + enc_u16(listen_port),
        EndpointView::RemoteNetwork(sa) => enc_u32(2) + enc_sockaddr(sa),
    }
}

/// Decoder for an endpoint.
pub open spec fn dec_endpoint(s: Seq<u8>, i: int) -> Option<(EndpointView, int)> {
    match dec_u32(s, i) {
        Some((d, j)) => if d == 0 {
            Some((EndpointView::Unknown, j))
        } else if d == 1 {
            match dec_str_list(s, j) {
                Some((lan, k)) => match dec_u16(s, k) {
                    Some((port, m)) => Some(
                        (EndpointView::LocalNetwork { lan_addrs: lan, listen_port: port }, m),
                    ),
                    None => None,
                },
                None => None,
            }
        } else if d == 2 {
            match dec_sockaddr(s, j) {
                Some((sa, k)) => Some((EndpointView::RemoteNetwork(sa), k)),
                None => None,
            }
        } else {
            None
        },
        None => None,
    }
}

/// Whether an endpoint's lists fit their count words.
pub open spec fn bounded_endpoint(e: EndpointView) -> bool {
    match e {
        EndpointView::LocalNetwork { lan_addrs, .. } => lan_addrs.len() <= u32::MAX
            && strs_bounded(lan_addrs),
        _ => true,
    }
}

/// An endpoint laid down at `i` decodes to itself.
pub proof fn lemma_rt_endpoint(s: Seq<u8>, i: int, e: EndpointView)
    requires
        prefix_at(s, i, enc_endpoint(e)),
        bounded_endpoint(e),
    ensures
        dec_endpoint(s, i) == Some((e, i + enc_endpoint(e).len())),
{
    match e {
        EndpointView::Unknown => {
            lemma_rt_u32(s, i, 0);
        },
        EndpointView::LocalNetwork { lan_addrs, listen_port } => {
            assert(enc_endpoint(e) =~= enc_u32(1) + (enc_str_list(lan_addrs) + enc_u16(
                listen_port,
            )));
            lemma_prefix_split(s, i, enc_u32(1), enc_str_list(lan_addrs) + enc_u16(listen_port));
            lemma_prefix_split(s, i + 4, enc_str_list(lan_addrs), enc_u16(listen_port));
            lemma_rt_u32(s, i, 1);
            lemma_rt_str_list(s, i + 4, lan_addrs);
            lemma_rt_u16(s, i + 4 + enc_str_list(lan_addrs).len(), listen_port);
        },
        EndpointView::RemoteNetwork(sa) => {
            lemma_prefix_split(s, i, enc_u32(2), enc_sockaddr(sa));
            lemma_rt_u32(s, i, 2);
            lemma_rt_sockaddr(s, i + 4, sa);
        },
    }
}

/// Appends an endpoint; refuses one whose lists are oversized.
pub fn push_endpoint(out: &mut Vec<u8>, e: &WireplugEndpoint) -> (ok: bool)
    ensures
        ok ==> final(out)@ == old(out)@ + enc_endpoint(e@),
        !ok ==> enc_endpoint(e@).len() > MAX_MESSAGE_SIZE,
{
    match e {
        WireplugEndpoint::Unknown => {
            push_u32(out, 0);
            assert(final(out)@ =~= old(out)@ + enc_endpoint(e@));
            true
        },
        WireplugEndpoint::LocalNetwork { lan_addrs, listen_port } => {
            push_u32(out, 1);
            let ok = push_str_list(out, lan_addrs);
            if !ok {
                return false;
            }
            push_u16(out, *listen_port);
            assert(final(out)@ =~= old(out)@ + enc_endpoint(e@));
            true
        },
        WireplugEndpoint::RemoteNetwork(sa) => {
            push_u32(out, 2);
            push_sockaddr(out, sa);
            assert(final(out)@ =~= old(out)@ + enc_endpoint(e@));
            true
        },
    }
}

/// Reads an endpoint at `i`.
pub fn read_endpoint(s: &Vec<u8>, i: usize) -> (r: Option<(WireplugEndpoint, usize)>)
    ensures
        (match r {
            Some((v, j)) => dec_endpoint(s@, i as int) == Some((v@, j as int)),
            None => dec_endpoint(s@, i as int) is None,
        }),
{
    let (d, j) = match read_u32(s, i) {
        Some(p) => p,
        None => {
            return None;
        },
    };
    if d == 0 {
        Some((WireplugEndpoint::Unknown, j))
    } else if d == 1 {
        let (lan, k) = match read_str_list(s, j) {
            Some(p) => p,
            None => {
                return None;
            },
        };
        match read_u16(s, k) {
            Some((port, m)) => Some(
                (WireplugEndpoint::LocalNetwork { lan_addrs: lan, listen_port: port }, m),
            ),
            None => None,
        }
    } else if d == 2 {
        match read_sockaddr(s, j) {
            Some((sa, k)) => Some((WireplugEndpoint::RemoteNetwork(sa), k)),
            None => None,
        }
    } else {
        None
    }
}

// ---------------------------------------------------------------------------
// Endpoint lists (the response map)
// ---------------------------------------------------------------------------
/// One map entry: the key, then the endpoint.
pub open spec fn enc_pair(p: (Seq<char>, EndpointView)) -> Seq<u8> {
    enc_string(p.0) + enc_endpoint(p.1)
}

/// Decoder for one map entry.
pub open spec fn dec_pair(s: Seq<u8>, i: int) -> Option<((Seq<char>, EndpointView), int)> {
    match dec_string(s, i) {
        Some((k, j)) => match dec_endpoint(s, j) {
            Some((e, m)) => Some(((k, e), m)),
            None => None,
        },
        None => None,
    }
}

/// Whether a map entry's strings fit their count words.
pub open spec fn bounded_pair(p: (Seq<char>, EndpointView)) -> bool {
    p.0.len() <= u32::MAX && bounded_endpoint(p.1)
}

/// A map entry laid down at `i` decodes to itself.
pub proof fn lemma_rt_pair(s: Seq<u8>, i: int, p: (Seq<char>, EndpointView))
    requires
        prefix_at(s, i, enc_pair(p)),
        bounded_pair(p),
    ensures
        dec_pair(s, i) == Some((p, i + enc_pair(p).len())),
{
    lemma_prefix_split(s, i, enc_string(p.0), enc_endpoint(p.1));
    lemma_rt_string(s, i, p.0);
    lemma_rt_endpoint(s, i + enc_string(p.0).len(), p.1);
}

/// The concatenated entries of a map.
pub open spec fn enc_pair_items(l: Seq<(Seq<char>, EndpointView)>) -> Seq<u8>
    decreases l.len(),
{
    if l.len() == 0 {
        Seq::empty()
    } else {
        enc_pair(l[0]) + enc_pair_items(l.drop_first())
    }
}

/// Appending an entry appends its block.
pub proof fn lemma_enc_pair_items_push(l: Seq<(Seq<char>, EndpointView)>, p: (Seq<char>, EndpointView))
    ensures
        enc_pair_items(l.push(p)) == enc_pair_items(l) + enc_pair(p),
    decreases l.len(),
{
    if l.len() == 0 {
        reveal_with_fuel(enc_pair_items, 3);
        assert(l.push(p).drop_first() =~= Seq::<(Seq<char>, EndpointView)>::empty());
        assert(enc_pair_items(l.push(p)) =~= enc_pair_items(l) + enc_pair(p));
    } else {
        assert(l.push(p).drop_first() =~= l.drop_first().push(p));
        lemma_enc_pair_items_push(l.drop_first(), p);
        assert(enc_pair_items(l.push(p)) =~= enc_pair_items(l) + enc_pair(p));
    }
}

/// Each entry's block is no longer than the whole block.
pub proof fn lemma_enc_pair_items_member_le(l: Seq<(Seq<char>, EndpointView)>, k: int)
    requires
        0 <= k < l.len(),
    ensures
        enc_pair(l[k]).len() <= enc_pair_items(l).len(),
    decreases l.len(),
{
    if k == 0 {
    } else {
        lemma_enc_pair_items_member_le(l.drop_first(), k - 1);
    }
}

/// A map of `n` entries encodes to at least four bytes per entry.
pub proof fn lemma_enc_pair_items_len_ge(l: Seq<(Seq<char>, EndpointView)>)
    ensures
        enc_pair_items(l).len() >= 4 * l.len(),
    decreases l.len(),
{
    if l.len() > 0 {
        lemma_enc_pair_items_len_ge(l.drop_first());
    }
}

/// Decoder for `n` map entries.
pub open spec fn dec_pair_items(s: Seq<u8>, i: int, n: nat) -> Option<
    (Seq<(Seq<char>, EndpointView)>, int),
>
    decreases n,
{
    if n == 0 {
        Some((Seq::empty(), i))
    } else {
        match dec_pair(s, i) {
            Some((p, j)) => match dec_pair_items(s, j, (n - 1) as nat) {
                Some((l, k)) => Some((seq![p] + l, k)),
                None => None,
            },
            None => None,
        }
    }
}

/// Whether every entry of a map fits its count words.
pub open spec fn pairs_bounded(l: Seq<(Seq<char>, EndpointView)>) -> bool {
    forall|i: int| 0 <= i < l.len() ==> bounded_pair(#[trigger] l[i])
}

/// Map entries laid down at `i` decode to their entries.
pub proof fn lemma_rt_pair_items(s: Seq<u8>, i: int, l: Seq<(Seq<char>, EndpointView)>)
    requires
        prefix_at(s, i, enc_pair_items(l)),
        pairs_bounded(l),
    ensures
        dec_pair_items(s, i, l.len()) == Some((l, i + enc_pair_items(l).len())),
    decreases l.len(),
{
    if l.len() == 0 {
        assert(l =~= Seq::<(Seq<char>, EndpointView)>::empty());
    } else {
        let p = l[0];
        let rest = l.drop_first();
        lemma_prefix_split(s, i, enc_pair(p), enc_pair_items(rest));
        lemma_rt_pair(s, i, p);
        lemma_rt_pair_items(s, i + enc_pair(p).len(), rest);
        assert(seq![p] + rest =~= l);
    }
}

/// An endpoint map: its entry count, then its entries.
pub open spec fn enc_pairs(l: Seq<(Seq<char>, EndpointView)>) -> Seq<u8> {
    enc_u32(l.len() as u32) + enc_pair_items(l)
}

/// Decoder for an endpoint map.
pub open spec fn dec_pairs(s: Seq<u8>, i: int) -> Option<(Seq<(Seq<char>, EndpointView)>, int)> {
    match dec_u32(s, i) {
        Some((n, j)) => dec_pair_items(s, j, n as nat),
        None => None,
    }
}

/// An endpoint map laid down at `i` decodes to itself.
pub proof fn lemma_rt_pairs(s: Seq<u8>, i: int, l: Seq<(Seq<char>, EndpointView)>)
    requires
        prefix_at(s, i, enc_pairs(l)),
        l.len() <= u32::MAX,
        pairs_bounded(l),
    ensures
        dec_pairs(s, i) == Some((l, i + enc_pairs(l).len())),
{
    lemma_prefix_split(s, i, enc_u32(l.len() as u32), enc_pair_items(l));
    lemma_rt_u32(s, i, l.len() as u32);
    lemma_rt_pair_items(s, i + 4, l);
}

/// Appends an endpoint map block; refuses an oversized map.
pub fn push_pairs(out: &mut Vec<u8>, l: &Vec<(String, WireplugEndpoint)>) -> (ok: bool)
    ensures
        ok ==> final(out)@ == old(out)@ + enc_pairs(l.deep_view()),
        !ok ==> enc_pairs(l.deep_view()).len() > MAX_MESSAGE_SIZE,
{
    let n = l.len();
    if n > MAX_MESSAGE_SIZE {
        proof {
            lemma_enc_pair_items_len_ge(l.deep_view());
        }
        return false;
    }
    push_u32(out, n as u32);
    let ghost start = out@;
    let ghost lv = l.deep_view();
    let mut k: usize = 0;
    while k < n
        invariant
            n == l@.len(),
            n <= MAX_MESSAGE_SIZE,
            lv == l.deep_view(),
            0 <= k <= n,
            out@ == start + enc_pair_items(lv.take(k as int)),
        decreases n - k,
    {
        proof {
            assert(lv[k as int] == (l@[k as int].0@, l@[k as int].1@));
        }
        let ghost before = out@;
        let ok1 = push_string(out, l[k].0.as_str());
        if !ok1 {
            proof {
                lemma_enc_pair_items_member_le(lv, k as int);
            }
            return false;
        }
        let ok2 = push_endpoint(out, &l[k].1);
        if !ok2 {
            proof {
                lemma_enc_pair_items_member_le(lv, k as int);
            }
            return false;
        }
        proof {
            assert(out@ =~= before + enc_pair(lv[k as int]));
            assert(lv.take(k + 1).drop_last() =~= lv.take(k as int));
            assert(lv.take(k + 1) =~= lv.take(k as int).push(lv[k as int]));
            lemma_enc_pair_items_push(lv.take(k as int), lv[k as int]);
            assert(out@ =~= start + enc_pair_items(lv.take(k + 1)));
        }
        k += 1;
    }
    proof {
        assert(lv.take(n as int) =~= lv);
    }
    true
}

/// Reads an endpoint map block at `i`.
pub fn read_pairs(s: &Vec<u8>, i: usize) -> (r: Option<(Vec<(String, WireplugEndpoint)>, usize)>)
    ensures
        (match r {
            Some((v, j)) => dec_pairs(s@, i as int) == Some((v.deep_view(), j as int)),
            None => dec_pairs(s@, i as int) is None,
        }),
{
    let (n, start) = match read_u32(s, i) {
        Some(p) => p,
        None => {
            return None;
        },
    };
    proof {
        assert(dec_pairs(s@, i as int) == dec_pair_items(s@, start as int, n as nat));
    }
    let mut acc: Vec<(String, WireplugEndpoint)> = Vec::new();
    let mut cur: usize = start;
    let mut k: u32 = 0;
    proof {
        if let Some((rest, j)) = dec_pair_items(s@, start as int, n as nat) {
            assert(acc.deep_view() + rest =~= rest);
        }
    }
    while k < n
        invariant
            0 <= k <= n,
            dec_pairs(s@, i as int) == dec_pair_items(s@, start as int, n as nat),
            (match dec_pair_items(s@, cur as int, (n - k) as nat) {
                Some((rest, j)) => dec_pair_items(s@, start as int, n as nat) == Some(
                    (acc.deep_view() + rest, j),
                ),
                None => dec_pair_items(s@, start as int, n as nat) is None,
            }),
        decreases n - k,
    {
        let ghost m = (n - k) as nat;
        let ghost accv = acc.deep_view();
        let (key, mid) = match read_string(s, cur) {
            Some(p) => p,
            None => {
                proof {
                    assert(dec_pair(s@, cur as int) is None);
                    assert(dec_pair_items(s@, cur as int, m) is None);
                }
                return None;
            },
        };
        let (ep, next) = match read_endpoint(s, mid) {
            Some(p) => p,
            None => {
                proof {
                    assert(dec_pair(s@, cur as int) is None);
                    assert(dec_pair_items(s@, cur as int, m) is None);
                }
                return None;
            },
        };
        proof {
            assert(dec_pair(s@, cur as int) == Some(((key@, ep@), next as int)));
            if let Some((rest2, j)) = dec_pair_items(s@, next as int, (m - 1) as nat) {
                assert(dec_pair_items(s@, cur as int, m) == Some((seq![(key@, ep@)] + rest2, j)));
                assert(accv + (seq![(key@, ep@)] + rest2) =~= accv.push((key@, ep@)) + rest2);
            }
        }
        acc.push((key, ep));
        proof {
            assert(acc.deep_view() =~= accv.push((key@, ep@)));
        }
        cur = next;
        k += 1;
    }
    proof {
        assert(acc.deep_view() + Seq::<(Seq<char>, EndpointView)>::empty() =~= acc.deep_view());
    }
    Some((acc, cur))
}

// ---------------------------------------------------------------------------
// Announcement messages
// ---------------------------------------------------------------------------
/// An announcement: tag, initiator key, peer keys, listen port, LAN list.
pub open spec fn enc_announcement(a: AnnouncementView) -> Seq<u8> {
    enc_string(a.proto) + enc_string(a.initiator_pubkey) + enc_str_list(a.peer_pubkeys) + enc_u16(
        a.listen_port,
    ) + enc_opt_strs(a.lan_addrs)
}

/// Decoder for an announcement.
pub open spec fn dec_announcement(s: Seq<u8>, i: int) -> Option<(AnnouncementView, int)> {
    match dec_string(s, i) {
        Some((proto, i1)) => match dec_string(s, i1) {
            Some((initiator_pubkey, i2)) => match dec_str_list(s, i2) {
                Some((peer_pubkeys, i3)) => match dec_u16(s, i3) {
                    Some((listen_port, i4)) => match dec_opt_strs(s, i4) {
                        Some((lan_addrs, i5)) => Some(
                            (
                                AnnouncementView {
                                    proto,
                                    initiator_pubkey,
                                    peer_pubkeys,
                                    listen_port,
                                    lan_addrs,
                                },
                                i5,
                            ),
                        ),
                        None => None,
                    },
                    None => None,
                },
                None => None,
            },
            None => None,
        },
        None => None,
    }
}

/// Whether an announcement's strings and lists fit their count words.
pub open spec fn encodable_announcement(a: AnnouncementView) -> bool {
    &&& a.proto.len() <= u32::MAX
    &&& a.initiator_pubkey.len() <= u32::MAX
    &&& a.peer_pubkeys.len() <= u32::MAX
    &&& strs_bounded(a.peer_pubkeys)
    &&& (match a.lan_addrs {
        Some(l) => l.len() <= u32::MAX && strs_bounded(l),
        None => true,
    })
}

/// An announcement laid down at `i` decodes to itself.
pub proof fn lemma_rt_announcement(s: Seq<u8>, i: int, a: AnnouncementView)
    requires
        prefix_at(s, i, enc_announcement(a)),
        encodable_announcement(a),
    ensures
        dec_announcement(s, i) == Some((a, i + enc_announcement(a).len())),
{
    let p1 = enc_string(a.proto);
    let p2 = enc_string(a.initiator_pubkey);
    let p3 = enc_str_list(a.peer_pubkeys);
    let p4 = enc_u16(a.listen_port);
    let p5 = enc_opt_strs(a.lan_addrs);
    assert(enc_announcement(a) =~= p1 + (p2 + (p3 + (p4 + p5))));
    lemma_prefix_split(s, i, p1, p2 + (p3 + (p4 + p5)));
    lemma_prefix_split(s, i + p1.len(), p2, p3 + (p4 + p5));
    lemma_prefix_split(s, i + p1.len() + p2.len(), p3, p4 + p5);
    lemma_prefix_split(s, i + p1.len() + p2.len() + p3.len(), p4, p5);
    lemma_rt_string(s, i, a.proto);
    lemma_rt_string(s, i + p1.len(), a.initiator_pubkey);
    lemma_rt_str_list(s, i + p1.len() + p2.len(), a.peer_pubkeys);
    lemma_rt_u16(s, i + p1.len() + p2.len() + p3.len(), a.listen_port);
    lemma_rt_opt_strs(s, i + p1.len() + p2.len() + p3.len() + p4.len(), a.lan_addrs);
}

/// Appends an optional string list.
pub fn push_opt_strs(out: &mut Vec<u8>, o: &Option<Vec<String>>) -> (ok: bool)
    ensures
        ok ==> final(out)@ == old(out)@ + enc_opt_strs(o.deep_view()),
        !ok ==> enc_opt_strs(o.deep_view()).len() > MAX_MESSAGE_SIZE,
{
    match o {
        None => {
            out.push(0u8);
            assert(final(out)@ =~= old(out)@ + enc_opt_strs(None));
            true
        },
        Some(l) => {
            out.push(1u8);
            proof {
                assert(out@ =~= old(out)@ + seq![1u8]);
            }
            let ok = push_str_list(out, l);
            if !ok {
                return false;
            }
            assert(final(out)@ =~= old(out)@ + enc_opt_strs(o.deep_view()));
            true
        },
    }
}

/// Reads an optional string list at `i`.
pub fn read_opt_strs(s: &Vec<u8>, i: usize) -> (r: Option<(Option<Vec<String>>, usize)>)
    ensures
        (match r {
            Some((v, j)) => dec_opt_strs(s@, i as int) == Some((v.deep_view(), j as int)),
            None => dec_opt_strs(s@, i as int) is None,
        }),
{
    if i >= s.len() {
        return None;
    }
    let b = s[i];
    if b == 0 {
        Some((None, i + 1))
    } else if b == 1 {
        match read_str_list(s, i + 1) {
            Some((l, j)) => Some((Some(l), j)),
            None => None,
        }
    } else {
        None
    }
}

/// Encodes an announcement; refuses one over the message size limit.
pub fn encode_announcement(a: &WireplugAnnouncement) -> (r: Option<Vec<u8>>)
    ensures
        (match r {
            Some(b) => b@ == enc_announcement(a@) && b@.len() <= MAX_MESSAGE_SIZE,
            None => enc_announcement(a@).len() > MAX_MESSAGE_SIZE,
        }),
{
    let ghost e1 = enc_string(a@.proto);
    let ghost e2 = enc_string(a@.initiator_pubkey);
    let ghost e3 = enc_str_list(a@.peer_pubkeys);
    let ghost e4 = enc_u16(a@.listen_port);
    let ghost e5 = enc_opt_strs(a@.lan_addrs);
    let mut out: Vec<u8> = Vec::new();
    if !push_string(&mut out, a.proto.as_str()) {
        return None;
    }
    assert(out@ =~= e1);
    if !push_string(&mut out, a.initiator_pubkey.as_str()) {
        return None;
    }
    assert(out@ =~= e1 + e2);
    if !push_str_list(&mut out, &a.peer_pubkeys) {
        return None;
    }
    assert(out@ =~= e1 + e2 + e3);
    push_u16(&mut out, a.listen_port);
    assert(out@ =~= e1 + e2 + e3 + e4);
    if !push_opt_strs(&mut out, &a.lan_addrs) {
        return None;
    }
    assert(out@ =~= enc_announcement(a@));
    if out.len() > MAX_MESSAGE_SIZE {
        return None;
    }
    Some(out)
}

/// Reads an announcement at `i`.
pub fn read_announcement(s: &Vec<u8>, i: usize) -> (r: Option<(WireplugAnnouncement, usize)>)
    ensures
        (match r {
            Some((v, j)) => dec_announcement(s@, i as int) == Some((v@, j as int)),
            None => dec_announcement(s@, i as int) is None,
        }),
{
    let (proto, i1) = match read_string(s, i) {
        Some(p) => p,
        None => {
            return None;
        },
    };
    let (initiator_pubkey, i2) = match read_string(s, i1) {
        Some(p) => p,
        None => {
            return None;
        },
    };
    let (peer_pubkeys, i3) = match read_str_list(s, i2) {
        Some(p) => p,
        None => {
            return None;
        },
    };
    let (listen_port, i4) = match read_u16(s, i3) {
        Some(p) => p,
        None => {
            return None;
        },
    };
    let (lan_addrs, i5) = match read_opt_strs(s, i4) {
        Some(p) => p,
        None => {
            return None;
        },
    };
    Some(
        (
            WireplugAnnouncement { proto, initiator_pubkey, peer_pubkeys, listen_port, lan_addrs },
            i5,
        ),
    )
}

/// Decodes an announcement from the start of a payload; bytes after the
/// message are ignored, as the frame length bounds the payload.
pub fn decode_announcement(buf: &Vec<u8>) -> (r: Option<WireplugAnnouncement>)
    ensures
        (match r {
            Some(v) => dec_announcement(buf@, 0) matches Some(p) && p.0 == v@,
            None => dec_announcement(buf@, 0) is None,
        }),
{
    match read_announcement(buf, 0) {
        Some((v, _)) => Some(v),
        None => None,
    }
}

// ---------------------------------------------------------------------------
// Response messages
// ---------------------------------------------------------------------------
/// A response: tag, then the endpoint map.
pub open spec fn enc_response(r: ResponseView) -> Seq<u8> {
    enc_string(r.proto) + enc_pairs(r.peer_endpoints)
}

/// Decoder for a response.
pub open spec fn dec_response(s: Seq<u8>, i: int) -> Option<(ResponseView, int)> {
    match dec_string(s, i) {
        Some((proto, i1)) => match dec_pairs(s, i1) {
            Some((peer_endpoints, i2)) => Some((ResponseView { proto, peer_endpoints }, i2)),
            None => None,
        },
        None => None,
    }
}

/// Whether a response's strings and lists fit their count words.
pub open spec fn encodable_response(r: ResponseView) -> bool {
    &&& r.proto.len() <= u32::MAX
    &&& r.peer_endpoints.len() <= u32::MAX
    &&& pairs_bounded(r.peer_endpoints)
}

/// A response laid down at `i` decodes to itself.
pub proof fn lemma_rt_response(s: Seq<u8>, i: int, r: ResponseView)
    requires
        prefix_at(s, i, enc_response(r)),
        encodable_response(r),
    ensures
        dec_response(s, i) == Some((r, i + enc_response(r).len())),
{
    lemma_prefix_split(s, i, enc_string(r.proto), enc_pairs(r.peer_endpoints));
    lemma_rt_string(s, i, r.proto);
    lemma_rt_pairs(s, i + enc_string(r.proto).len(), r.peer_endpoints);
}

/// Encodes a response; refuses one over the message size limit.
pub fn encode_response(r: &WireplugResponse) -> (res: Option<Vec<u8>>)
    ensures
        (match res {
            Some(b) => b@ == enc_response(r@) && b@.len() <= MAX_MESSAGE_SIZE,
            None => enc_response(r@).len() > MAX_MESSAGE_SIZE,
        }),
{
    let ghost e1 = enc_string(r@.proto);
    let ghost e2 = enc_pairs(r@.peer_endpoints);
    let mut out: Vec<u8> = Vec::new();
    if !push_string(&mut out, r.proto.as_str()) {
        return None;
    }
    assert(out@ =~= e1);
    if !push_pairs(&mut out, &r.peer_endpoints) {
        return None;
    }
    assert(out@ =~= enc_response(r@));
    if out.len() > MAX_MESSAGE_SIZE {
        return None;
    }
    Some(out)
}

/// Reads a response at `i`.
pub fn read_response(s: &Vec<u8>, i: usize) -> (r: Option<(WireplugResponse, usize)>)
    ensures
        (match r {
            Some((v, j)) => dec_response(s@, i as int) == Some((v@, j as int)),
            None => dec_response(s@, i as int) is None,
        }),
{
    let (proto, i1) = match read_string(s, i) {
        Some(p) => p,
        None => {
            return None;
        },
    };
    let (peer_endpoints, i2) = match read_pairs(s, i1) {
        Some(p) => p,
        None => {
            return None;
        },
    };
    Some((WireplugResponse { proto, peer_endpoints }, i2))
}

/// Decodes a response from the start of a payload.
pub fn decode_response(buf: &Vec<u8>) -> (r: Option<WireplugResponse>)
    ensures
        (match r {
            Some(v) => dec_response(buf@, 0) matches Some(p) && p.0 == v@,
            None => dec_response(buf@, 0) is None,
        }),
{
    match read_response(buf, 0) {
        Some((v, _)) => Some(v),
        None => None,
    }
}

// ---------------------------------------------------------------------------
// STUN messages
// ---------------------------------------------------------------------------
/// A probe request: tag, then the declared port.
pub open spec fn enc_stun_request(q: StunRequestView) -> Seq<u8> {
    enc_string(q.proto) + enc_u16(q.port)
}

/// Decoder for a probe request.
pub open spec fn dec_stun_request(s: Seq<u8>, i: int) -> Option<(StunRequestView, int)> {
    match dec_string(s, i) {
        Some((proto, i1)) => match dec_u16(s, i1) {
            Some((port, i2)) => Some((StunRequestView { proto, port }, i2)),
            None => None,
        },
        None => None,
    }
}

/// A probe request laid down at `i` decodes to itself.
pub proof fn lemma_rt_stun_request(s: Seq<u8>, i: int, q: StunRequestView)
    requires
        prefix_at(s, i, enc_stun_request(q)),
        q.proto.len() <= u32::MAX,
    ensures
        dec_stun_request(s, i) == Some((q, i + enc_stun_request(q).len())),
{
    lemma_prefix_split(s, i, enc_string(q.proto), enc_u16(q.port));
    lemma_rt_string(s, i, q.proto);
    lemma_rt_u16(s, i + enc_string(q.proto).len(), q.port);
}

/// Encodes a probe request; refuses one over the message size limit.
pub fn encode_stun_request(q: &WireplugStunRequest) -> (r: Option<Vec<u8>>)
    ensures
        (match r {
            Some(b) => b@ == enc_stun_request(q@) && b@.len() <= MAX_MESSAGE_SIZE,
            None => enc_stun_request(q@).len() > MAX_MESSAGE_SIZE,
        }),
{
    let mut out: Vec<u8> = Vec::new();
    if !push_string(&mut out, q.proto.as_str()) {
        return None;
    }
    push_u16(&mut out, q.port);
    assert(out@ =~= enc_stun_request(q@));
    if out.len() > MAX_MESSAGE_SIZE {
        return None;
    }
    Some(out)
}

/// Decodes a probe request from the start of a datagram.
pub fn decode_stun_request(buf: &Vec<u8>) -> (r: Option<WireplugStunRequest>)
    ensures
        (match r {
            Some(v) => dec_stun_request(buf@, 0) matches Some(p) && p.0 == v@,
            None => dec_stun_request(buf@, 0) is None,
        }),
{
    let (proto, i1) = match read_string(buf, 0) {
        Some(p) => p,
        None => {
            return None;
        },
    };
    match read_u16(buf, i1) {
        Some((port, _)) => Some(WireplugStunRequest { proto, port }),
        None => None,
    }
}

/// A probe reply: a discriminant word, then the observed port if it differed.
pub open spec fn enc_stun_response(r: WireplugStunResponse) -> Seq<u8> {
    match r.result {
        WireplugStunResult::SamePort => enc_u32(0),
        WireplugStunResult::DifferentPort(p) => enc_u32(1) + enc_u16(p),
    }
}

/// Decoder for a probe reply.
pub open spec fn dec_stun_response(s: Seq<u8>, i: int) -> Option<(WireplugStunResponse, int)> {
    match dec_u32(s, i) {
        Some((d, j)) => if d == 0 {
            Some((WireplugStunResponse { result: WireplugStunResult::SamePort }, j))
        } else if d == 1 {
            match dec_u16(s, j) {
                Some((p, k)) => Some(
                    (WireplugStunResponse { result: WireplugStunResult::DifferentPort(p) }, k),
                ),
                None => None,
            }
        } else {
            None
        },
        None => None,
    }
}

/// A probe reply laid down at `i` decodes to itself.
pub proof fn lemma_rt_stun_response(s: Seq<u8>, i: int, r: WireplugStunResponse)
    requires
        prefix_at(s, i, enc_stun_response(r)),
    ensures
        dec_stun_response(s, i) == Some((r, i + enc_stun_response(r).len())),
{
    match r.result {
        WireplugStunResult::SamePort => {
            lemma_rt_u32(s, i, 0);
        },
        WireplugStunResult::DifferentPort(p) => {
            lemma_prefix_split(s, i, enc_u32(1), enc_u16(p));
            lemma_rt_u32(s, i, 1);
            lemma_rt_u16(s, i + 4, p);
        },
    }
}

/// Encodes a probe reply.
pub fn encode_stun_response(r: &WireplugStunResponse) -> (b: Vec<u8>)
    ensures
        b@ == enc_stun_response(*r),
{
    let mut out: Vec<u8> = Vec::new();
    match r.result {
        WireplugStunResult::SamePort => {
            push_u32(&mut out, 0);
        },
        WireplugStunResult::DifferentPort(p) => {
            push_u32(&mut out, 1);
            push_u16(&mut out, p);
        },
    }
    assert(out@ =~= enc_stun_response(*r));
    out
}

/// Decodes a probe reply from the start of a datagram.
pub fn decode_stun_response(buf: &Vec<u8>) -> (r: Option<WireplugStunResponse>)
    ensures
        (match r {
            Some(v) => dec_stun_response(buf@, 0) matches Some(p) && p.0 == v,
            None => dec_stun_response(buf@, 0) is None,
        }),
{
    let (d, j) = match read_u32(buf, 0) {
        Some(p) => p,
        None => {
            return None;
        },
    };
    if d == 0 {
        Some(WireplugStunResponse { result: WireplugStunResult::SamePort })
    } else if d == 1 {
        match read_u16(buf, j) {
            Some((p, _)) => Some(
                WireplugStunResponse { result: WireplugStunResult::DifferentPort(p) },
            ),
            None => None,
        }
    } else {
        None
    }
}

// ---------------------------------------------------------------------------
// Length framing
// ---------------------------------------------------------------------------
/// A frame: the payload length as a little-endian word, then the payload.
pub open spec fn spec_frame(p: Seq<u8>) -> Seq<u8> {
    enc_u32(p.len() as u32) + p
}

/// Wraps a payload into a frame; refuses one over the message size limit.
pub fn frame_payload(payload: &Vec<u8>) -> (r: Option<Vec<u8>>)
    ensures
        (match r {
            Some(f) => payload@.len() <= MAX_MESSAGE_SIZE && f@ == spec_frame(payload@),
            None => payload@.len() > MAX_MESSAGE_SIZE,
        }),
{
    if payload.len() > MAX_MESSAGE_SIZE {
        return None;
    }
    let mut out: Vec<u8> = Vec::new();
    push_u32(&mut out, payload.len() as u32);
    let mut k: usize = 0;
    while k < payload.len()
        invariant
            0 <= k <= payload@.len(),
            out@ == enc_u32(payload@.len() as u32) + payload@.take(k as int),
        decreases payload@.len() - k,
    {
        out.push(payload[k]);
        proof {
            assert(payload@.take(k + 1) =~= payload@.take(k as int).push(payload@[k as int]));
            assert(out@ =~= enc_u32(payload@.len() as u32) + payload@.take(k + 1));
        }
        k += 1;
    }
    proof {
        assert(payload@.take(payload@.len() as int) =~= payload@);
    }
    Some(out)
}

/// Reads a frame header: the declared length, which a reader must refuse
/// when it exceeds the message size limit, before reading any body byte.
pub fn parse_frame_header(header: &Vec<u8>) -> (r: Option<usize>)
    ensures
        (match r {
            Some(l) => dec_u32(header@, 0) matches Some(p) && p.0 == l as u32 && l
                <= MAX_MESSAGE_SIZE,
            None => dec_u32(header@, 0) is None || (dec_u32(header@, 0) matches Some(p) && p.0
                > MAX_MESSAGE_SIZE),
        }),
{
    let (v, _) = match read_u32(header, 0) {
        Some(p) => p,
        None => {
            return None;
        },
    };
    if v as usize > MAX_MESSAGE_SIZE {
        return None;
    }
    Some(v as usize)
}

/// Encodes and frames an announcement in one step: what the announce client
/// writes to its connection.
pub fn encode_announcement_frame(a: &WireplugAnnouncement) -> (r: Option<Vec<u8>>)
    ensures
        (match r {
            Some(f) => f@ == spec_frame(enc_announcement(a@)) && enc_announcement(a@).len()
                <= MAX_MESSAGE_SIZE,
            None => enc_announcement(a@).len() > MAX_MESSAGE_SIZE,
        }),
{
    let payload = match encode_announcement(a) {
        Some(p) => p,
        None => {
            return None;
        },
    };
    match frame_payload(&payload) {
        Some(f) => Some(f),
        None => None,
    }
}

// ---------------------------------------------------------------------------
// Round-trip laws
// ---------------------------------------------------------------------------
/// Decoding an encoded announcement yields the announcement, with every
/// byte of the encoding consumed.
pub proof fn lemma_announcement_round_trip(a: AnnouncementView)
    requires
        encodable_announcement(a),
    ensures
        dec_announcement(enc_announcement(a), 0) == Some(
            (a, enc_announcement(a).len() as int),
        ),
{
    let s = enc_announcement(a);
    assert(s.subrange(0, s.len() as int) =~= s);
    lemma_rt_announcement(s, 0, a);
}

/// Decoding an encoded response yields the response, with every byte of
/// the encoding consumed.
pub proof fn lemma_response_round_trip(r: ResponseView)
    requires
        encodable_response(r),
    ensures
        dec_response(enc_response(r), 0) == Some((r, enc_response(r).len() as int)),
{
    let s = enc_response(r);
    assert(s.subrange(0, s.len() as int) =~= s);
    lemma_rt_response(s, 0, r);
}

/// Decoding an encoded probe request yields the request, with every byte
/// of the encoding consumed.
pub proof fn lemma_stun_request_round_trip(q: StunRequestView)
    requires
        q.proto.len() <= u32::MAX,
    ensures
        dec_stun_request(enc_stun_request(q), 0) == Some(
            (q, enc_stun_request(q).len() as int),
        ),
{
    let s = enc_stun_request(q);
    assert(s.subrange(0, s.len() as int) =~= s);
    lemma_rt_stun_request(s, 0, q);
}

/// Decoding an encoded probe reply yields the reply, with every byte of
/// the encoding consumed.
pub proof fn lemma_stun_response_round_trip(r: WireplugStunResponse)
    ensures
        dec_stun_response(enc_stun_response(r), 0) == Some(
            (r, enc_stun_response(r).len() as int),
        ),
{
    let s = enc_stun_response(r);
    assert(s.subrange(0, s.len() as int) =~= s);
    lemma_rt_stun_response(s, 0, r);
}

/// A payload of length `L` appears on the wire as the word `L` followed by
/// the payload bytes, and the length word read back is `L`.
pub proof fn lemma_frame_layout(p: Seq<u8>)
    requires
        p.len() <= MAX_MESSAGE_SIZE,
    ensures
        spec_frame(p) == enc_u32(p.len() as u32) + p,
        spec_frame(p).len() == 4 + p.len(),
        dec_u32(spec_frame(p), 0) == Some((p.len() as u32, 4int)),
        spec_frame(p).subrange(4, spec_frame(p).len() as int) == p,
{
    let s = spec_frame(p);
    assert(s.subrange(0, s.len() as int) =~= s);
    lemma_prefix_split(s, 0, enc_u32(p.len() as u32), p);
    lemma_rt_u32(s, 0, p.len() as u32);
    assert(s.subrange(4, s.len() as int) =~= p);
}

} // verus!
