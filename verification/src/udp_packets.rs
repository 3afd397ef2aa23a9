//! The UDP probe payloads crafted for well-known services.
//!
//! From [RFC 768](https://www.rfc-editor.org/rfc/rfc768.txt): the UDP
//! header is the OS's business; these functions craft only the data that
//! follows it, shaped so that the service on the probed port answers.
use vstd::prelude::*;

verus! {

/// A run of zero bytes.
pub open spec fn zero_bytes(n: nat) -> Seq<u8> {
    Seq::new(n, |i: int| 0u8)
}

/// Append `n` zero bytes.
fn push_zero_bytes(v: &mut Vec<u8>, n: usize)
    ensures
        final(v)@ == old(v)@ + zero_bytes(n as nat),
{
    let mut i: usize = 0;
    while i < n
        invariant
            0 <= i <= n,
            v@ == old(v)@ + zero_bytes(i as nat),
        decreases n - i,
    {
        v.push(0);
        proof {
            assert(v@ =~= old(v)@ + zero_bytes((i + 1) as nat));
        }
        i = i + 1;
    }
}

/// The payload sent to a UDP port with no crafted packet registered:
/// a blank probe, which still draws a reply from many services.
pub fn cust_payload(dst_prt: u16) -> (r: Vec<u8>)
    ensures
        r@ == Seq::<u8>::empty(),
{
    match dst_prt {
        _ => Vec::new(),
    }
}

/// The SNMP trap packet: version, the community string "public", the trap
/// PDU type, and an enterprise OID.
pub open spec fn snmptrap_packet() -> Seq<u16> {
    seq![
        0x30u16, 0x82,
        0x04, 0x06, 0x70, 0x75, 0x62, 0x6c, 0x69, 0x63,
        0xa4, 0x82,
        0x06, 0x09, 0x2b, 0x06, 0x01, 0x02, 0x01, 0x01, 0x01, 0x00,
    ]
}

pub fn craft_snmptrap_packet() -> (r: Vec<u16>)
    ensures
        r@ == snmptrap_packet(),
{
    let version: Vec<u16> = vec![0x30, 0x82];  // SNMP version
    let community_string: Vec<u16> = vec![0x04, 0x06, 0x70, 0x75, 0x62, 0x6c, 0x69, 0x63];  // Community string "public"
    let pdu_type: Vec<u16> = vec![0xa4, 0x82];  // PDU type for SNMP Trap
    let enterprise_oid: Vec<u16> = vec![0x06, 0x09, 0x2b, 0x06, 0x01, 0x02, 0x01, 0x01, 0x01, 0x00];  // Enterprise OID

    // Combine the components into a single SNMP Trap packet
    let mut packet = version;
    let mut rest = community_string;
    packet.append(&mut rest);
    let mut rest = pdu_type;
    packet.append(&mut rest);
    let mut rest = enterprise_oid;
    packet.append(&mut rest);
    proof {
        assert(packet@ =~= snmptrap_packet());
    }
    packet
}

/// The SNMP GET packet of [RFC 1592](https://www.rfc-editor.org/rfc/rfc1592.txt):
/// version, the community string "public", a GET request PDU with request
/// id, error status, error index, and one null variable binding.
pub open spec fn snmp_packet() -> Seq<u8> {
    seq![
        0x30u8, 0x29, 0x02, 0x01, 0x00,
        0x04, 0x06, 0x70, 0x75, 0x62, 0x6c, 0x69, 0x63,
        0xa0, 0x1c,
        0x02, 0x04, 0x7a, 0x69, 0x67, 0x71,
        0x02, 0x01, 0x00,
        0x02, 0x01, 0x00,
        0x30, 0x0e, 0x30, 0x0c, 0x06, 0x08, 0x2b, 0x06, 0x01, 0x02, 0x01, 0x01, 0x01, 0x00,
        0x05, 0x00,
    ]
}

pub fn craft_snmp_packet() -> (r: Vec<u8>)
    ensures
        r@ == snmp_packet(),
{
    let v1: Vec<u8> = vec![0x30, 0x29, 0x02, 0x01, 0x00];
    let community_string: Vec<u8> = vec![0x04, 0x06, 0x70, 0x75, 0x62, 0x6c, 0x69, 0x63];
    let pdu_type: Vec<u8> = vec![0xa0, 0x1c];
    let request_id: Vec<u8> = vec![0x02, 0x04, 0x7a, 0x69, 0x67, 0x71];
    let error_status: Vec<u8> = vec![0x02, 0x01, 0x00];
    let error_index: Vec<u8> = vec![0x02, 0x01, 0x00];
    let variable_bindings: Vec<u8> = vec![
        0x30, 0x0e, 0x30, 0x0c, 0x06, 0x08, 0x2b, 0x06, 0x01, 0x02, 0x01, 0x01, 0x01, 0x00,
        0x05, 0x00,
    ];

    let mut packet = v1;
    let mut rest = community_string;
    packet.append(&mut rest);
    let mut rest = pdu_type;
    packet.append(&mut rest);
    let mut rest = request_id;
    packet.append(&mut rest);
    let mut rest = error_status;
    packet.append(&mut rest);
    let mut rest = error_index;
    packet.append(&mut rest);
    let mut rest = variable_bindings;
    packet.append(&mut rest);
    proof {
        assert(packet@ =~= snmp_packet());
    }
    packet
}

/// The DHCP Discover packet of RFC 1541: a BOOTP boot request over
/// Ethernet with a fixed transaction id, the broadcast flag, all-zero
/// addresses and padding, the DHCP magic cookie, the Discover message
/// type, a parameter request list, and the end option.
pub open spec fn dhcpc_packet() -> Seq<u8> {
    seq![
        0x01u8,  // BOOTP message type: Boot Request
        0x01,  // Hardware type: Ethernet (10Mb)
        0x06,  // Hardware address length
        0x00,  // Hops
        0x39, 0x03, 0xF3, 0x26,  // Transaction ID
        0x00, 0x00,  // Seconds elapsed
        0x80, 0x00,  // Bootp flags: Broadcast
    ] + zero_bytes(224)  // client, own, server and relay addresses, the
        // client hardware address and its padding, server host name, and
        // boot file name: all not given
        + seq![
        0x63u8, 0x82, 0x53, 0x63,  // Magic cookie: DHCP
        0x35, 0x01, 0x01,  // DHCP Message Type: Discover
        0x37, 0x04, 0x01, 0x03, 0x06, 0x2a,  // Parameter Request List
        0xff,  // End Option
    ]
}

pub fn craft_dhcpc_packet() -> (r: Vec<u8>)
    ensures
        r@ == dhcpc_packet(),
{
    let mut packet: Vec<u8> = vec![
        0x01,  // BOOTP message type: Boot Request (1)
        0x01,  // Hardware type: Ethernet (10Mb) (1)
        0x06,  // Hardware address length: 6
        0x00,  // Hops: 0
        0x39, 0x03, 0xF3, 0x26,  // Transaction ID: random (0x3903F326)
        0x00, 0x00,  // Seconds elapsed: 0
        0x80, 0x00,  // Bootp flags: 0x8000 (Broadcast)
    ];
    // Client IP address, your (client) IP address, next server IP address,
    // relay agent IP address: 0.0.0.0 each (16 bytes);
    // client MAC address 00:00:00:00:00:00 and its 10 bytes of padding;
    // server host name (64) and boot file name (128): not given
    push_zero_bytes(&mut packet, 224);
    let mut tail: Vec<u8> = vec![
        0x63, 0x82, 0x53, 0x63,  // Magic cookie: DHCP
        0x35, 0x01, 0x01,  // DHCP Message Type: DHCP Discover (1)
        0x37, 0x04, 0x01, 0x03, 0x06, 0x2a,  // DHCP Option: Parameter Request List
        0xff,  // End Option
    ];
    packet.append(&mut tail);
    proof {
        assert(packet@ =~= dhcpc_packet());
    }
    packet
}

/// A DNS standard query for the A record of `www.google.com`: one
/// question, no answer, authority or additional records.
pub open spec fn dns_query_packet() -> Seq<u8> {
    seq![
        0x12u8, 0x34,  // Transaction ID
        0x01, 0x00,  // Flags: standard query
        0x00, 0x01,  // Questions: 1
        0x00, 0x00,  // Answer RRs: 0
        0x00, 0x00,  // Authority RRs: 0
        0x00, 0x00,  // Additional RRs: 0
        0x03, 0x77, 0x77, 0x77,  // "www"
        0x06, 0x67, 0x6f, 0x6f, 0x67, 0x6c, 0x65,  // "google"
        0x03, 0x63, 0x6f, 0x6d,  // "com"
        0x00,  // end of query name
        0x00, 0x01,  // Query Type: A (host address)
        0x00, 0x01,  // Query Class: IN (internet)
    ]
}

pub fn craft_dns_query_packet() -> (r: Vec<u8>)
    ensures
        r@ == dns_query_packet(),
{
    let packet: Vec<u8> = vec![
        0x12, 0x34,  // Transaction ID: random
        0x01, 0x00,  // Flags: standard query
        0x00, 0x01,  // Questions: 1
        0x00, 0x00,  // Answer RRs: 0
        0x00, 0x00,  // Authority RRs: 0
        0x00, 0x00,  // Additional RRs: 0
        // Query: www.google.com, each label preceded by its length
        0x03, 0x77, 0x77, 0x77,  // "www"
        0x06, 0x67, 0x6f, 0x6f, 0x67, 0x6c, 0x65,  // "google"
        0x03, 0x63, 0x6f, 0x6d,  // "com"
        0x00,  // End of query name
        0x00, 0x01,  // Query Type: A (host address)
        0x00, 0x01,  // Query Class: IN (internet)
    ];
    proof {
        assert(packet@ =~= dns_query_packet());
    }
    packet
}

/// The simplest NTP packet possible: 0x1b followed by 47 zeros
/// (Version = 3, Mode = 3).
pub open spec fn ntp_packet() -> Seq<u8> {
    seq![0x1bu8] + zero_bytes(47)
}

pub fn craft_ntp_packet() -> (r: Vec<u8>)
    ensures
        r@ == ntp_packet(),
{
    let mut packet: Vec<u8> = vec![0x1b];
    push_zero_bytes(&mut packet, 47);
    proof {
        assert(packet@ =~= ntp_packet());
    }
    packet
}

} // verus!
