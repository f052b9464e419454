//! The local peer's view of itself and handshake construction: choosing the
//! advertised address, inspecting the data URL's host and port, and
//! substituting a URL derived from the public address when the configured one
//! has no routable host.
use vstd::prelude::*;

use crate::codec::copy_bytes;
use crate::crypto::{hash160, hash160_of, secp_pubkey_of, Secp256k1PrivateKey, Secp256k1PublicKey};
use crate::message::NeighborKey;
use crate::neighbor::{NeighborAddress, NeighborAddressV};
use crate::payload::{HandshakeAcceptData, HandshakeData, HandshakeDataV};
use crate::render::{append_dec_bytes, append_hex_byte, spec_dec_bytes, spec_hex_byte};
use crate::types::{Hash160, PeerAddress, StacksPublicKeyBuffer, UrlString};

verus! {

/// The local node's identity: where it listens, an optional public address
/// override, which services it offers, its node key and that key's expiry,
/// and its advertised data URL.
pub struct LocalPeer {
    pub addrbytes: PeerAddress,
    pub port: u16,
    pub public_ip_address: Option<(PeerAddress, u16)>,
    pub services: u16,
    pub private_key: Secp256k1PrivateKey,
    pub private_key_expire: u64,
    pub data_url: UrlString,
}

/// A known peer: its table key and its node public key.
pub struct Neighbor {
    pub addr: NeighborKey,
    pub public_key: StacksPublicKeyBuffer,
}

/// Where the host part of a URL starts: just past the first scheme
/// separator, scanning from `i`.
pub open spec fn spec_host_start_from(u: Seq<u8>, i: int) -> Option<int>
    decreases u.len() - i,
{
    if i < 0 || i + 3 > u.len() {
        None
    } else if u[i] == 58 && u[i + 1] == 47 && u[i + 2] == 47 {
        Some(i + 3)
    } else {
        spec_host_start_from(u, i + 1)
    }
}

/// Where the host part of a URL ends: the first colon or slash at or after
/// `i`, or the end of the URL.
pub open spec fn spec_host_end_from(u: Seq<u8>, i: int) -> int
    decreases u.len() - i,
{
    if i < 0 || i >= u.len() {
        u.len() as int
    } else if u[i] == 58 || u[i] == 47 {
        i
    } else {
        spec_host_end_from(u, i + 1)
    }
}

/// The host part of a URL, when a scheme separator is present.
pub open spec fn spec_url_host(u: Seq<u8>) -> Option<Seq<u8>> {
    match spec_host_start_from(u, 0) {
        None => None,
        Some(hs) => Some(u.subrange(hs, spec_host_end_from(u, hs))),
    }
}

/// Whether a URL has a routable host: a host that is present, non-empty,
/// and neither the unspecified IPv4 nor the unspecified IPv6 address.
pub open spec fn spec_has_routable_host(u: Seq<u8>) -> bool {
    match spec_url_host(u) {
        None => false,
        Some(h) => h.len() > 0 && h != seq![48u8, 46u8, 48u8, 46u8, 48u8, 46u8, 48u8] && h != seq![
            91u8,
            58u8,
            58u8,
            93u8,
        ],
    }
}

/// The numeric value of the decimal ASCII run `u[i..j]`.
pub open spec fn spec_dec_value(u: Seq<u8>, i: int, j: int) -> int
    decreases j - i,
{
    if i >= j {
        0
    } else {
        spec_dec_value(u, i, j - 1) * 10 + (u[j - 1] - 48)
    }
}

/// Whether every byte of `u[i..j]` is a decimal ASCII digit.
pub open spec fn spec_all_digits(u: Seq<u8>, i: int, j: int) -> bool {
    forall|k: int| i <= k < j ==> 48 <= #[trigger] u[k] <= 57
}

/// The port a URL carries after its host: present when a colon follows the
/// host and is itself followed by one or more digits, running to the next
/// slash or the end, whose value fits a port number.
pub open spec fn spec_url_port(u: Seq<u8>) -> Option<u16> {
    match spec_host_start_from(u, 0) {
        None => None,
        Some(hs) => {
            let he = spec_host_end_from(u, hs);
            if he < u.len() && u[he] == 58 {
                let pe = spec_host_end_from(u, he + 1);
                if pe > he + 1 && spec_all_digits(u, he + 1, pe) && spec_dec_value(u, he + 1, pe)
                    <= 65535 {
                    Some(spec_dec_value(u, he + 1, pe) as u16)
                } else {
                    None
                }
            } else {
                None
            }
        },
    }
}

/// Whether a 16-byte address is an IPv4 address in its IPv6-mapped form.
pub open spec fn spec_is_ipv4_mapped(a: Seq<u8>) -> bool {
    a.len() == 16 && (forall|i: int| 0 <= i < 10 ==> #[trigger] a[i] == 0) && a[10] == 0xff && a[11]
        == 0xff
}

/// The textual socket address of a peer address and port, as ASCII bytes: an
/// IPv4-mapped address renders as a dotted quad, any other as the sixteen
/// bytes in full hexadecimal IPv6 form (no zero-run compression) in brackets,
/// each followed by a colon and the decimal port.
pub open spec fn spec_addr_render(a: Seq<u8>, port: u16) -> Seq<u8> {
    if spec_is_ipv4_mapped(a) {
        spec_dec_bytes(a[12] as u64) + seq![46u8] + spec_dec_bytes(a[13] as u64) + seq![46u8]
            + spec_dec_bytes(a[14] as u64) + seq![46u8] + spec_dec_bytes(a[15] as u64) + seq![58u8]
            + spec_dec_bytes(port as u64)
    } else {
        seq![91u8] + spec_ipv6_groups(a, 0) + seq![93u8, 58u8] + spec_dec_bytes(port as u64)
    }
}

/// The colon-separated hexadecimal groups of an IPv6 address, from group `g`.
pub open spec fn spec_ipv6_groups(a: Seq<u8>, g: int) -> Seq<u8>
    decreases 8 - g,
{
    if g < 0 || g >= 8 {
        Seq::empty()
    } else if g == 7 {
        spec_hex_byte(a[14]) + spec_hex_byte(a[15])
    } else {
        spec_hex_byte(a[2 * g]) + spec_hex_byte(a[2 * g + 1]) + seq![58u8] + spec_ipv6_groups(
            a,
            g + 1,
        )
    }
}

/// The data URL a handshake advertises: the configured URL when its host is
/// routable; otherwise, when the configured URL carries a port, an HTTP URL
/// for the advertised address at that port; otherwise the empty URL.
pub open spec fn spec_handshake_url(u: Seq<u8>, addr: Seq<u8>, port_opt: Option<u16>) -> Seq<u8> {
    if spec_has_routable_host(u) {
        u
    } else {
        match port_opt {
            Some(p) => seq![104u8, 116u8, 116u8, 112u8, 58u8, 47u8, 47u8] + spec_addr_render(
                addr,
                p,
            ),
            None => Seq::empty(),
        }
    }
}

/// Find a URL's host start, scanning from `i`.
fn host_start_from(u: &Vec<u8>, i: usize) -> (r: Option<usize>)
    requires
        i <= u@.len(),
    ensures
        match r {
            Some(k) => spec_host_start_from(u@, i as int) == Some(k as int) && k <= u@.len(),
            None => spec_host_start_from(u@, i as int) is None,
        },
    decreases u@.len() - i,
{
    if u.len() - i < 3 {
        None
    } else if u[i] == 58 && u[i + 1] == 47 && u[i + 2] == 47 {
        Some(i + 3)
    } else {
        host_start_from(u, i + 1)
    }
}

/// Find a URL's host end, scanning from `i`.
fn host_end_from(u: &Vec<u8>, i: usize) -> (r: usize)
    requires
        i <= u@.len(),
    ensures
        r == spec_host_end_from(u@, i as int),
        i <= r <= u@.len(),
    decreases u@.len() - i,
{
    if i >= u.len() {
        u.len()
    } else if u[i] == 58 || u[i] == 47 {
        i
    } else {
        host_end_from(u, i + 1)
    }
}

/// Whether this URL has a routable host.
fn has_routable_host(u: &Vec<u8>) -> (r: bool)
    ensures
        r == spec_has_routable_host(u@),
{
    let hs = match host_start_from(u, 0) {
        Some(hs) => hs,
        None => {
            return false;
        },
    };
    let he = host_end_from(u, hs);
    let host = crate::codec::read_raw_bytes(u, hs, he, he - hs);
    let host = match host {
        Ok((h, _)) => h,
        Err(_) => {
            proof {
                assert(false);
            }
            return false;
        },
    };
    assert(host@ =~= u@.subrange(hs as int, he as int));
    let unspec4: Vec<u8> = vec![48u8, 46u8, 48u8, 46u8, 48u8, 46u8, 48u8];
    let unspec6: Vec<u8> = vec![91u8, 58u8, 58u8, 93u8];
    proof {
        assert(unspec4@ =~= seq![48u8, 46u8, 48u8, 46u8, 48u8, 46u8, 48u8]);
        assert(unspec6@ =~= seq![91u8, 58u8, 58u8, 93u8]);
    }
    host.len() > 0 && !crate::types::bytes_eq(&host, &unspec4) && !crate::types::bytes_eq(
        &host,
        &unspec6,
    )
}

/// The port this URL carries after its host, if any.
fn url_port(u: &Vec<u8>) -> (r: Option<u16>)
    ensures
        r == spec_url_port(u@),
{
    let hs = match host_start_from(u, 0) {
        Some(hs) => hs,
        None => {
            return None;
        },
    };
    let he = host_end_from(u, hs);
    if he >= u.len() || u[he] != 58 {
        return None;
    }
    let pe = host_end_from(u, he + 1);
    if pe <= he + 1 {
        return None;
    }
    let mut value: u32 = 0;
    let mut k: usize = he + 1;
    while k < pe
        invariant
            he + 1 <= k <= pe <= u@.len(),
            spec_host_start_from(u@, 0) == Some(hs as int),
            he == spec_host_end_from(u@, hs as int),
            he < u@.len() && u@[he as int] == 58,
            pe == spec_host_end_from(u@, he + 1),
            pe > he + 1,
            spec_all_digits(u@, he + 1 as int, k as int),
            value == spec_dec_value(u@, he + 1 as int, k as int),
            value <= 65535,
        decreases pe - k,
    {
        let b = u[k];
        if b < 48 || b > 57 {
            assert(!spec_all_digits(u@, he + 1 as int, pe as int));
            return None;
        }
        let next: u32 = value * 10 + (b - 48) as u32;
        if next > 65535 {
            proof {
                lemma_dec_value_grows(u@, he + 1 as int, k + 1, pe as int);
            }
            return None;
        }
        value = next;
        k = k + 1;
    }
    Some(value as u16)
}

/// A digit run's value only grows as the run extends.
proof fn lemma_dec_value_grows(u: Seq<u8>, i: int, j: int, e: int)
    requires
        i <= j <= e,
    ensures
        spec_all_digits(u, i, e) && spec_dec_value(u, i, j) > 65535 ==> spec_dec_value(u, i, e)
            > 65535,
    decreases e - j,
{
    if j < e {
        lemma_dec_value_grows(u, i, j + 1, e);
        if spec_all_digits(u, i, e) && spec_dec_value(u, i, j) > 65535 {
            assert(spec_dec_value(u, i, j + 1) == spec_dec_value(u, i, j) * 10 + (u[j] - 48));
        }
    }
}

/// Render the textual socket address of an address and port as ASCII bytes.
fn render_socketaddr(addr: &Vec<u8>, port: u16) -> (r: Vec<u8>)
    requires
        addr@.len() == 16,
    ensures
        r@ == spec_addr_render(addr@, port),
{
    let mut out: Vec<u8> = Vec::new();
    let mut mapped = addr[10] == 0xff && addr[11] == 0xff;
    let mut i: usize = 0;
    while i < 10
        invariant
            i <= 10,
            addr@.len() == 16,
            mapped == (addr@[10] == 0xff && addr@[11] == 0xff && forall|t: int|
                0 <= t < i ==> #[trigger] addr@[t] == 0),
        decreases 10 - i,
    {
        if addr[i] != 0 {
            mapped = false;
        }
        i = i + 1;
    }
    assert(mapped == spec_is_ipv4_mapped(addr@));
    if mapped {
        append_dec_bytes(&mut out, addr[12] as u64);
        out.push(46);
        append_dec_bytes(&mut out, addr[13] as u64);
        out.push(46);
        append_dec_bytes(&mut out, addr[14] as u64);
        out.push(46);
        append_dec_bytes(&mut out, addr[15] as u64);
        out.push(58);
        append_dec_bytes(&mut out, port as u64);
        assert(out@ =~= spec_addr_render(addr@, port));
    } else {
        out.push(91);
        let mut g: usize = 0;
        let ghost base = out@;
        while g < 8
            invariant
                g <= 8,
                addr@.len() == 16,
                out@ == base + spec_ipv6_prefix(addr@, g as int),
            decreases 8 - g,
        {
            append_hex_byte(&mut out, addr[2 * g]);
            append_hex_byte(&mut out, addr[2 * g + 1]);
            if g < 7 {
                out.push(58);
            }
            proof {
                lemma_ipv6_prefix_step(addr@, g as int);
                assert(out@ =~= base + spec_ipv6_prefix(addr@, g + 1));
            }
            g = g + 1;
        }
        proof {
            lemma_ipv6_prefix_whole(addr@);
        }
        out.push(93);
        out.push(58);
        append_dec_bytes(&mut out, port as u64);
        assert(out@ =~= spec_addr_render(addr@, port));
    }
    out
}

/// The first `g` colon-separated groups of an IPv6 rendering.
spec fn spec_ipv6_prefix(a: Seq<u8>, g: int) -> Seq<u8>
    decreases g,
{
    if g <= 0 {
        Seq::empty()
    } else if g == 8 {
        spec_ipv6_prefix(a, 7) + spec_hex_byte(a[14]) + spec_hex_byte(a[15])
    } else {
        spec_ipv6_prefix(a, g - 1) + spec_hex_byte(a[2 * (g - 1)]) + spec_hex_byte(
            a[2 * (g - 1) + 1],
        ) + seq![58u8]
    }
}

/// One group extends the prefix.
proof fn lemma_ipv6_prefix_step(a: Seq<u8>, g: int)
    requires
        0 <= g < 8,
    ensures
        g < 7 ==> spec_ipv6_prefix(a, g + 1) == spec_ipv6_prefix(a, g) + spec_hex_byte(a[2 * g])
            + spec_hex_byte(a[2 * g + 1]) + seq![58u8],
        g == 7 ==> spec_ipv6_prefix(a, 8) == spec_ipv6_prefix(a, 7) + spec_hex_byte(a[14])
            + spec_hex_byte(a[15]),
{
}

/// The full prefix is the whole group rendering.
proof fn lemma_ipv6_prefix_whole(a: Seq<u8>)
    ensures
        spec_ipv6_prefix(a, 8) == spec_ipv6_groups(a, 0),
{
    lemma_ipv6_prefix_groups(a, 0);
    assert(spec_ipv6_prefix(a, 0) + spec_ipv6_groups(a, 0) =~= spec_ipv6_groups(a, 0));
}

/// Splitting the rendering at group `g`.
proof fn lemma_ipv6_prefix_groups(a: Seq<u8>, g: int)
    requires
        0 <= g <= 8,
    ensures
        spec_ipv6_prefix(a, 8) == spec_ipv6_prefix(a, g) + spec_ipv6_groups(a, g),
    decreases 8 - g,
{
    if g == 8 {
        assert(spec_ipv6_groups(a, 8) == Seq::<u8>::empty());
        assert(spec_ipv6_prefix(a, 8) + Seq::<u8>::empty() =~= spec_ipv6_prefix(a, 8));
    } else {
        lemma_ipv6_prefix_groups(a, g + 1);
        if g == 7 {
            assert(spec_ipv6_groups(a, 7) == spec_hex_byte(a[14]) + spec_hex_byte(a[15]));
            assert(spec_ipv6_prefix(a, 8) =~= spec_ipv6_prefix(a, 7) + spec_ipv6_groups(a, 7));
        } else {
            assert(spec_ipv6_prefix(a, 8) =~= spec_ipv6_prefix(a, g) + spec_ipv6_groups(a, g));
        }
    }
}

/// The address and port a handshake advertises: the public override when one
/// is set, the bound address otherwise.
pub open spec fn spec_effective_addr(lp: LocalPeer) -> (Seq<u8>, u16) {
    match lp.public_ip_address {
        Some((a, p)) => (a.0@, p),
        None => (lp.addrbytes.0@, lp.port),
    }
}

impl HandshakeData {
    /// Build the handshake a local peer sends: its advertised address and
    /// services, the public key of its node key, that key's expiry, and its
    /// data URL — substituted by an HTTP URL at the advertised address when
    /// the configured URL has no routable host but carries a port, and by
    /// the empty URL when it carries none.
    pub fn from_local_peer(local_peer: &LocalPeer) -> (r: HandshakeData)
        requires
            local_peer.private_key.wf(),
            local_peer.addrbytes.0@.len() == 16,
            match local_peer.public_ip_address {
                Some((a, p)) => a.0@.len() == 16,
                None => true,
            },
        ensures
            r.deep_view() == (HandshakeDataV {
                addrbytes: spec_effective_addr(*local_peer).0,
                port: spec_effective_addr(*local_peer).1,
                services: local_peer.services,
                node_public_key: secp_pubkey_of(local_peer.private_key.bytes@),
                expire_block_height: local_peer.private_key_expire,
                data_url: spec_handshake_url(
                    local_peer.data_url.0@,
                    spec_effective_addr(*local_peer).0,
                    spec_url_port(local_peer.data_url.0@),
                ),
            }),
    {
        let (addrbytes, port) = match &local_peer.public_ip_address {
            Some((public_addrbytes, p)) => (copy_bytes(&public_addrbytes.0), *p),
            None => (copy_bytes(&local_peer.addrbytes.0), local_peer.port),
        };
        let data_url: Vec<u8> = if has_routable_host(&local_peer.data_url.0) {
            copy_bytes(&local_peer.data_url.0)
        } else {
            match url_port(&local_peer.data_url.0) {
                Some(data_port) => {
                    let mut url: Vec<u8> = vec![104u8, 116u8, 116u8, 112u8, 58u8, 47u8, 47u8];
                    proof {
                        assert(url@ =~= seq![104u8, 116u8, 116u8, 112u8, 58u8, 47u8, 47u8]);
                    }
                    let mut rendered = render_socketaddr(&addrbytes, data_port);
                    let ghost rv = rendered@;
                    url.append(&mut rendered);
                    assert(url@ =~= seq![104u8, 116u8, 116u8, 112u8, 58u8, 47u8, 47u8] + rv);
                    url
                },
                None => {
                    let url: Vec<u8> = Vec::new();
                    assert(url@ =~= Seq::<u8>::empty());
                    url
                },
            }
        };
        let pubkey = Secp256k1PublicKey::from_private(&local_peer.private_key);
        let r = HandshakeData {
            addrbytes: PeerAddress(addrbytes),
            port,
            services: local_peer.services,
            node_public_key: StacksPublicKeyBuffer::from_public_key(&pubkey),
            expire_block_height: local_peer.private_key_expire,
            data_url: UrlString(data_url),
        };
        assert(r.deep_view() =~= (HandshakeDataV {
            addrbytes: spec_effective_addr(*local_peer).0,
            port: spec_effective_addr(*local_peer).1,
            services: local_peer.services,
            node_public_key: secp_pubkey_of(local_peer.private_key.bytes@),
            expire_block_height: local_peer.private_key_expire,
            data_url: spec_handshake_url(
                local_peer.data_url.0@,
                spec_effective_addr(*local_peer).0,
                spec_url_port(local_peer.data_url.0@),
            ),
        }));
        r
    }
}

impl HandshakeAcceptData {
    /// Build the acceptance a local peer answers a handshake with: its own
    /// handshake data and its heartbeat interval.
    pub fn new(local_peer: &LocalPeer, heartbeat_interval: u32) -> (r: HandshakeAcceptData)
        requires
            local_peer.private_key.wf(),
            local_peer.addrbytes.0@.len() == 16,
            match local_peer.public_ip_address {
                Some((a, p)) => a.0@.len() == 16,
                None => true,
            },
        ensures
            r.deep_view().handshake == HandshakeData::from_local_peer_model(*local_peer),
            r.deep_view().heartbeat_interval == heartbeat_interval,
    {
        HandshakeAcceptData { handshake: HandshakeData::from_local_peer(local_peer), heartbeat_interval }
    }
}

impl HandshakeData {
    /// The model of the handshake a local peer sends.
    pub open spec fn from_local_peer_model(lp: LocalPeer) -> HandshakeDataV {
        HandshakeDataV {
            addrbytes: spec_effective_addr(lp).0,
            port: spec_effective_addr(lp).1,
            services: lp.services,
            node_public_key: secp_pubkey_of(lp.private_key.bytes@),
            expire_block_height: lp.private_key_expire,
            data_url: spec_handshake_url(
                lp.data_url.0@,
                spec_effective_addr(lp).0,
                spec_url_port(lp.data_url.0@),
            ),
        }
    }
}

impl NeighborAddress {
    /// The wire address of a known peer: its address and port with the
    /// fingerprint (RIPEMD-160 over SHA-256) of its node public key.
    pub fn from_neighbor(n: &Neighbor) -> (r: NeighborAddress)
        ensures
            r.deep_view() == (NeighborAddressV {
                addrbytes: n.addr.addrbytes.0@,
                port: n.addr.port,
                public_key_hash: hash160_of(n.public_key.0@),
            }),
    {
        let r = NeighborAddress {
            addrbytes: PeerAddress(copy_bytes(&n.addr.addrbytes.0)),
            port: n.addr.port,
            public_key_hash: Hash160(hash160(&n.public_key.0)),
        };
        assert(r.deep_view() =~= (NeighborAddressV {
            addrbytes: n.addr.addrbytes.0@,
            port: n.addr.port,
            public_key_hash: hash160_of(n.public_key.0@),
        }));
        r
    }
}

} // verus!
