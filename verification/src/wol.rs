//! Raw Wake-on-LAN frames.
//!
//! A WOL frame is an Ethernet broadcast frame whose payload is the "magic
//! packet": six `0xFF` bytes followed by the target MAC repeated sixteen
//! times. An optional 802.1Q tag (EtherType `0x8100` plus a 12-bit VLAN
//! identifier) may sit between the Ethernet header and the WOL EtherType
//! `0x0842`. Everything here is byte-exact: the contracts give the full
//! contents of the frame.

use vstd::prelude::*;

use crate::chars::{first_sep, hex_digit_value, hex_val, is_hex_digit, scan_sep};

verus! {

/// Failure while constructing or sending a WOL frame.
#[derive(Debug)]
pub enum WOLError {
    /// The target MAC is not a colon-separated hardware-address literal
    /// such as `aa:bb:cc:dd:ee:ff` or `0:1:2:3:4:5`.
    InvalidMAC(String),
    /// No local network interface has the requested name.
    InterfaceNotFound(String),
    /// The interface exists but cannot be used (for example it has no
    /// hardware address of its own).
    NetworkError(String),
    /// The frame could not be sent.
    WOLPacketError(String),
}

/// A local network interface, reduced to what frame construction needs:
/// its name and its hardware address, if it has one.
pub struct Interface {
    pub name: String,
    pub mac: Option<[u8; 6]>,
}

/// A component of a hardware-address literal: one or two hexadecimal
/// digits.
pub open spec fn mac_component(s: Seq<char>) -> bool {
    1 <= s.len() <= 2 && forall|t: int| 0 <= t < s.len() ==> is_hex_digit(#[trigger] s[t])
}

/// The octet denoted by a one- or two-digit hexadecimal component.
pub open spec fn component_octet(s: Seq<char>) -> u8 {
    if s.len() == 1 {
        hex_val(s[0])
    } else {
        (16 * hex_val(s[0]) + hex_val(s[1])) as u8
    }
}

/// `s` consists of `n` colon-separated hardware-address components.
pub open spec fn mac_groups(s: Seq<char>, n: int) -> bool
    decreases n,
{
    let p = first_sep(s, ':');
    if n <= 1 {
        mac_component(s)
    } else if 0 <= p < s.len() {
        mac_component(s.subrange(0, p)) && mac_groups(s.skip(p + 1), n - 1)
    } else {
        false
    }
}

/// The octets denoted by `n` colon-separated components.
pub open spec fn mac_groups_octets(s: Seq<char>, n: int) -> Seq<u8>
    decreases n,
{
    let p = first_sep(s, ':');
    if n <= 1 {
        seq![component_octet(s)]
    } else {
        seq![component_octet(s.subrange(0, if 0 <= p <= s.len() { p } else { 0 }))]
            + mac_groups_octets(s.skip(p + 1), n - 1)
    }
}

/// The accepted hardware-address syntax: six components of one or two
/// hexadecimal digits each, separated by colons, such as
/// `01:23:45:67:89:AB` or `0:1:2:3:4:5`.
pub open spec fn is_mac_literal(s: Seq<char>) -> bool {
    mac_groups(s, 6)
}

/// The six octets denoted by a hardware-address literal.
pub open spec fn mac_octets(s: Seq<char>) -> Seq<u8> {
    mac_groups_octets(s, 6)
}

/// Parses one hardware-address component in `s` within `[from, to)`.
fn mac_component_at(s: &str, from: usize, to: usize) -> (r: Option<u8>)
    requires
        from <= to <= s@.len(),
    ensures
        r is Some <==> mac_component(s@.subrange(from as int, to as int)),
        r matches Some(v) ==> v == component_octet(s@.subrange(from as int, to as int)),
{
    let ghost w = s@.subrange(from as int, to as int);
    if to - from < 1 || to - from > 2 {
        return None;
    }
    let hi = match hex_digit_value(s.get_char(from)) {
        Some(v) => v,
        None => {
            assert(w[0] == s@[from as int]);
            return None;
        },
    };
    proof {
        assert(w[0] == s@[from as int]);
    }
    if to - from == 1 {
        Some(hi)
    } else {
        let lo = match hex_digit_value(s.get_char(from + 1)) {
            Some(v) => v,
            None => {
                assert(w[1] == s@[from + 1]);
                return None;
            },
        };
        proof {
            assert(w[1] == s@[from + 1]);
        }
        Some(16 * hi + lo)
    }
}

/// Parses `n` colon-separated components in `s` within `[from, to)`.
fn mac_groups_parse(s: &str, from: usize, to: usize, n: u8) -> (r: Option<Vec<u8>>)
    requires
        from <= to <= s@.len(),
        1 <= n,
    ensures
        r is Some <==> mac_groups(s@.subrange(from as int, to as int), n as int),
        r matches Some(v) ==> v@ == mac_groups_octets(s@.subrange(from as int, to as int), n as int)
            && v@.len() == n as int,
    decreases n,
{
    let ghost w = s@.subrange(from as int, to as int);
    let p = scan_sep(s, from, to, ':');
    if n == 1 {
        match mac_component_at(s, from, to) {
            Some(v) => {
                let mut out: Vec<u8> = Vec::new();
                out.push(v);
                proof {
                    assert(out@ =~= mac_groups_octets(w, 1));
                }
                Some(out)
            },
            None => None,
        }
    } else if p < to {
        proof {
            assert(w.subrange(0, p - from) =~= s@.subrange(from as int, p as int));
            assert(w.skip(p - from + 1) =~= s@.subrange(p + 1, to as int));
        }
        let head = match mac_component_at(s, from, p) {
            Some(v) => v,
            None => {
                return None;
            },
        };
        match mac_groups_parse(s, p + 1, to, n - 1) {
            Some(rest) => {
                let mut out: Vec<u8> = Vec::new();
                out.push(head);
                let mut t: usize = 0;
                while t < rest.len()
                    invariant
                        t <= rest@.len(),
                        out@.len() == 1 + t,
                        out@[0] == head,
                        forall|q: int| 0 <= q < t ==> out@[1 + q] == rest@[q],
                    decreases rest@.len() - t,
                {
                    out.push(rest[t]);
                    t = t + 1;
                }
                proof {
                    assert(out@ =~= mac_groups_octets(w, n as int));
                }
                Some(out)
            },
            None => None,
        }
    } else {
        None
    }
}

/// Parses a hardware-address literal into its six octets.
pub fn parse_mac(s: &str) -> (r: Option<[u8; 6]>)
    ensures
        r is Some <==> is_mac_literal(s@),
        r matches Some(m) ==> m@ == mac_octets(s@),
{
    let n = s.unicode_len();
    proof {
        assert(s@.subrange(0, n as int) =~= s@);
    }
    match mac_groups_parse(s, 0, n, 6) {
        Some(v) => {
            let out: [u8; 6] = [v[0], v[1], v[2], v[3], v[4], v[5]];
            proof {
                assert(out@ =~= mac_octets(s@));
            }
            Some(out)
        },
        None => None,
    }
}

/// The six broadcast octets `FF:FF:FF:FF:FF:FF`, the destination of every
/// WOL frame.
pub open spec fn broadcast_octets() -> Seq<u8> {
    seq![0xffu8, 0xffu8, 0xffu8, 0xffu8, 0xffu8, 0xffu8]
}

/// The 102-byte WOL magic payload: six `0xFF` bytes, then the six target
/// octets repeated sixteen times.
pub open spec fn wol_payload(target: Seq<u8>) -> Seq<u8> {
    Seq::new(102, |i: int| if i < 6 { 0xffu8 } else { target[(i - 6) % 6] })
}

/// The two bytes of an 802.1Q tag: the low 12 bits of `vlan` in big-endian
/// order, priority and CFI bits zero.
pub open spec fn vlan_tag_bytes(vlan: u16) -> Seq<u8> {
    seq![((vlan & 0x0fff) / 256) as u8, ((vlan & 0x0fff) % 256) as u8]
}

/// The complete frame sent to wake `target`: Ethernet header (broadcast
/// destination, `src` as source), the optional 802.1Q tag, the WOL
/// EtherType `0x0842`, and the magic payload. 116 bytes without a VLAN
/// tag, 120 with one.
pub open spec fn frame_bytes(src: Seq<u8>, vlan: Option<u16>, target: Seq<u8>) -> Seq<u8> {
    match vlan {
        Option::None => broadcast_octets() + src + seq![0x08u8, 0x42u8] + wol_payload(target),
        Option::Some(v) => broadcast_octets() + src + seq![0x81u8, 0x00u8] + vlan_tag_bytes(v)
            + seq![0x08u8, 0x42u8] + wol_payload(target),
    }
}

/// The two bytes of an 802.1Q tag for `vlan`: the low 12 bits of the
/// identifier in big-endian order, priority and CFI bits zero. Identifiers
/// above 4095 are silently truncated to their low 12 bits.
pub fn vlan_to_bytes(vlan: u16) -> (r: Vec<u8>)
    ensures
        r@.len() == 2,
        r@[0] == (vlan & 0x0fff) / 256,
        r@[1] == (vlan & 0x0fff) % 256,
{
    let tag = vlan & 0x0fff;
    proof {
        assert(vlan & 0x0fff < 4096) by (bit_vector);
    }
    let mut r: Vec<u8> = Vec::new();
    r.push((tag / 256) as u8);
    r.push((tag % 256) as u8);
    r
}

/// The WOL magic payload for `target`.
fn create_wol_payload(target: &[u8; 6]) -> (r: Vec<u8>)
    ensures
        r@ == wol_payload(target@),
{
    let mut r: Vec<u8> = Vec::new();
    let mut i: usize = 0;
    while i < 6
        invariant
            i <= 6,
            r@.len() == i,
            forall|p: int| 0 <= p < i ==> r@[p] == 0xffu8,
        decreases 6 - i,
    {
        r.push(0xff);
        i = i + 1;
    }
    let mut t: usize = 0;
    while t < 16
        invariant
            t <= 16,
            r@.len() == 6 + 6 * t,
            forall|p: int| 0 <= p < r@.len() ==> r@[p] == wol_payload(target@)[p],
        decreases 16 - t,
    {
        let mut j: usize = 0;
        while j < 6
            invariant
                j <= 6,
                t < 16,
                r@.len() == 6 + 6 * t + j,
                forall|p: int| 0 <= p < r@.len() ==> r@[p] == wol_payload(target@)[p],
            decreases 6 - j,
        {
            proof {
                assert((6 * (t as int) + j) % 6 == j) by (nonlinear_arith)
                    requires 0 <= j < 6 && 0 <= t;
            }
            r.push(target[j]);
            j = j + 1;
        }
        t = t + 1;
    }
    assert(r@ =~= wol_payload(target@));
    r
}

/// A complete WOL frame from plain values; the contract gives every byte.
pub fn build_frame(src: &[u8; 6], vlan: Option<u16>, target: &[u8; 6]) -> (buf: Vec<u8>)
    ensures
        buf@ == frame_bytes(src@, vlan, target@),
        buf@.len() == if vlan is Some { 120int } else { 116int },
{
    let mut buf: Vec<u8> = Vec::new();
    let mut i: usize = 0;
    while i < 6
        invariant
            i <= 6,
            buf@.len() == i,
            forall|p: int| 0 <= p < i ==> buf@[p] == 0xffu8,
        decreases 6 - i,
    {
        buf.push(0xff);
        i = i + 1;
    }
    let mut j: usize = 0;
    while j < 6
        invariant
            j <= 6,
            buf@.len() == 6 + j,
            forall|p: int| 0 <= p < 6 ==> buf@[p] == 0xffu8,
            forall|p: int| 0 <= p < j ==> buf@[6 + p] == src@[p],
        decreases 6 - j,
    {
        buf.push(src[j]);
        j = j + 1;
    }
    match vlan {
        Some(v) => {
            buf.push(0x81);
            buf.push(0x00);
            let tag = vlan_to_bytes(v);
            buf.push(tag[0]);
            buf.push(tag[1]);
            buf.push(0x08);
            buf.push(0x42);
        },
        None => {
            buf.push(0x08);
            buf.push(0x42);
        },
    }
    let payload = create_wol_payload(target);
    let ghost header = buf@;
    let mut k: usize = 0;
    while k < payload.len()
        invariant
            k <= payload@.len(),
            buf@ == header + payload@.subrange(0, k as int),
        decreases payload@.len() - k,
    {
        buf.push(payload[k]);
        proof {
            assert(payload@.subrange(0, k as int).push(payload@[k as int])
                =~= payload@.subrange(0, k + 1));
        }
        k = k + 1;
    }
    proof {
        assert(payload@.subrange(0, payload@.len() as int) =~= payload@);
        assert(buf@ =~= frame_bytes(src@, vlan, target@));
        assert(wol_payload(target@).len() == 102);
    }
    buf
}

/// Lists the machine's network interfaces, reduced to name and hardware
/// address.
///
/// Relies on pnet_datalink::interfaces: which interfaces exist, and in what
/// order, depends on the machine, so nothing is promised of the result.
#[verifier::external_body]
fn list_interfaces() -> Vec<Interface> {
    pnet::datalink::interfaces()
        .into_iter()
        .map(|i| Interface { name: i.name, mac: i.mac.map(|m| m.octets()) })
        .collect()
}

/// Position of the first interface bearing `name`, scanning from `from`.
pub open spec fn first_iface_from(ifaces: Seq<Interface>, name: Seq<char>, from: int) -> Option<
    int,
>
    decreases ifaces.len() - from,
{
    if from < 0 || from >= ifaces.len() {
        None
    } else if ifaces[from].name@ == name {
        Some(from)
    } else {
        first_iface_from(ifaces, name, from + 1)
    }
}

/// Position of the first interface bearing `name`, if any does.
pub open spec fn first_iface_named(ifaces: Seq<Interface>, name: Seq<char>) -> Option<int> {
    first_iface_from(ifaces, name, 0)
}

proof fn lemma_first_iface_props(ifaces: Seq<Interface>, name: Seq<char>, from: int)
    requires
        0 <= from,
    ensures
        match first_iface_from(ifaces, name, from) {
            Some(p) => from <= p < ifaces.len() && ifaces[p].name@ == name && forall|q: int|
                from <= q < p ==> (#[trigger] ifaces[q]).name@ != name,
            None => forall|q: int|
                from <= q < ifaces.len() ==> (#[trigger] ifaces[q]).name@ != name,
        },
    decreases ifaces.len() - from,
{
    if from < ifaces.len() && ifaces[from].name@ != name {
        lemma_first_iface_props(ifaces, name, from + 1);
    }
}

/// Position of the first interface with the wanted name, if any.
fn find_interface(ifaces: &Vec<Interface>, want: &String) -> (r: Option<usize>)
    ensures
        r matches Some(i) ==> first_iface_named(ifaces@, want@) == Some(i as int),
        r is None ==> first_iface_named(ifaces@, want@) is None,
{
    let mut idx: usize = 0;
    let n = ifaces.len();
    while idx < n
        invariant
            n == ifaces@.len(),
            idx <= n,
            forall|p: int| 0 <= p < idx ==> (#[trigger] ifaces@[p]).name@ != want@,
        decreases n - idx,
    {
        if ifaces[idx].name == *want {
            proof {
                lemma_first_iface_props(ifaces@, want@, 0);
            }
            return Some(idx);
        }
        idx = idx + 1;
    }
    proof {
        lemma_first_iface_props(ifaces@, want@, 0);
    }
    None
}

impl Clone for Interface {
    /// A clone is equal to the original.
    fn clone(&self) -> (r: Self)
        ensures
            r == *self,
    {
        Interface { name: self.name.clone(), mac: self.mac }
    }
}

/// Builds the WOL frame for `maybe_mac` against an explicit interface
/// list. The contract is a complete case split: a malformed MAC is
/// `InvalidMAC`; else a name no interface bears is `InterfaceNotFound`;
/// else a first matching interface without a hardware address is
/// `NetworkError`; else the result is exactly that interface and the
/// byte-exact frame. No other outcome exists, and no partial frame is
/// ever returned.
pub fn frame_for(
    ifaces: &Vec<Interface>,
    maybe_mac: &str,
    interface_name: &str,
    vlan_id: Option<u16>,
) -> (r: Result<(Vec<u8>, Interface), WOLError>)
    ensures
        (!is_mac_literal(maybe_mac@)) <==> (r matches Err(WOLError::InvalidMAC(m)) && m@
            == maybe_mac@),
        (is_mac_literal(maybe_mac@) && first_iface_named(ifaces@, interface_name@) is None) <==> (
        r matches Err(WOLError::InterfaceNotFound(n)) && n@ == interface_name@),
        ({
            &&& is_mac_literal(maybe_mac@)
            &&& first_iface_named(ifaces@, interface_name@) matches Some(p) && ifaces@[p].mac
                is None
        }) <==> r matches Err(WOLError::NetworkError(_)),
        ({
            &&& is_mac_literal(maybe_mac@)
            &&& first_iface_named(ifaces@, interface_name@) matches Some(p) && ifaces@[p].mac
                is Some
        }) <==> r is Ok,
        r matches Ok(pair) ==> {
            &&& pair.1 == ifaces@[first_iface_named(ifaces@, interface_name@).unwrap()]
            &&& pair.1.mac matches Some(src) && pair.0@ == frame_bytes(
                src@,
                vlan_id,
                mac_octets(maybe_mac@),
            )
        },
{
    let target = match parse_mac(maybe_mac) {
        Some(m) => m,
        None => {
            return Err(WOLError::InvalidMAC(maybe_mac.to_owned()));
        },
    };
    let want: String = interface_name.to_owned();
    let idx = match find_interface(ifaces, &want) {
        Some(i) => i,
        None => {
            return Err(WOLError::InterfaceNotFound(want));
        },
    };
    proof {
        lemma_first_iface_props(ifaces@, want@, 0);
    }
    let iface = ifaces[idx].clone();
    if let Some(src) = iface.mac {
        let buf = build_frame(&src, vlan_id, &target);
        Ok((buf, iface))
    } else {
        Err(WOLError::NetworkError(
            "failed to get source MAC address of the interface".to_owned(),
        ))
    }
}

/// Builds the WOL frame that wakes `maybe_mac` when sent from the local
/// interface named `interface_name`, returning the frame together with the
/// interface it must be sent on. Which interfaces exist is machine state,
/// so success cannot be promised here; [`frame_for`] pins the outcome for
/// every interface list, and this function merely applies it to the
/// machine's.
pub fn build_wol_packet(maybe_mac: &str, interface_name: &str, vlan_id: Option<u16>) -> (r: Result<
    (Vec<u8>, Interface),
    WOLError,
>)
    ensures
        !is_mac_literal(maybe_mac@) <==> (r matches Err(WOLError::InvalidMAC(m)) && m@
            == maybe_mac@),
        r matches Err(WOLError::InterfaceNotFound(n)) ==> n@ == interface_name@ && is_mac_literal(
            maybe_mac@,
        ),
        r matches Err(WOLError::NetworkError(_)) ==> is_mac_literal(maybe_mac@),
        r matches Ok(p) ==> {
            &&& p.1.name@ == interface_name@
            &&& p.1.mac matches Some(src) && p.0@ == frame_bytes(src@, vlan_id, mac_octets(maybe_mac@))
        },
        !(r matches Err(WOLError::WOLPacketError(_))),
{
    let ifaces = list_interfaces();
    let r = frame_for(&ifaces, maybe_mac, interface_name, vlan_id);
    proof {
        lemma_first_iface_props(ifaces@, interface_name@, 0);
    }
    r
}

} // verus!
