//! The network logic over received Ethernet frames: answering ARP requests
//! for the guest address and echoing UDP datagrams sent to port 7.
use vstd::prelude::*;

verus! {

/// The guest's IPv4 address (QEMU user networking).
pub const NET_GUEST_IP: [u8; 4] = [10, 0, 2, 15];

/// UDP echo port.
pub const NET_ECHO_PORT: u16 = 7;

/// Largest Ethernet frame handled, in bytes.
pub const MAX_FRAME: usize = 1514;

/// Length of an ARP request or reply frame.
pub const ARP_FRAME_LEN: usize = 42;

/// Largest input of `net_ip_checksum`, in bytes: its 65,535 words sum
/// without overflowing 32 bits.
pub const MAX_CHECKSUM_INPUT: usize = 131_070;

pub open spec fn guest_ip() -> Seq<u8> {
    seq![10u8, 0, 2, 15]
}

/// Big-endian 16-bit word `j` of `d`; an odd last byte is padded with zero.
pub open spec fn word_at(d: Seq<u8>, j: int) -> int {
    d[2 * j] * 256 + if 2 * j + 1 < d.len() {
        d[2 * j + 1] as int
    } else {
        0
    }
}

/// Sum of the first `k` words of `d`.
pub open spec fn sum_words(d: Seq<u8>, k: nat) -> int
    decreases k,
{
    if k == 0 {
        0
    } else {
        sum_words(d, (k - 1) as nat) + word_at(d, k - 1)
    }
}

/// Folds the carries of `s` back into its low 16 bits until it fits.
pub open spec fn fold16(s: int) -> int
    decreases s,
{
    if s > 0xFFFF {
        fold16(s % 0x1_0000 + s / 0x1_0000)
    } else {
        s
    }
}

/// The Internet checksum (RFC 1071) of `d`.
pub open spec fn ip_checksum(d: Seq<u8>) -> u16 {
    !(fold16(sum_words(d, (d.len() + 1) / 2)) as u16)
}

proof fn lemma_sum_words_bound(d: Seq<u8>, k: nat)
    requires
        2 * k <= d.len() + 1,
    ensures
        0 <= sum_words(d, k) <= k * 0xFFFF,
    decreases k,
{
    if k > 0 {
        lemma_sum_words_bound(d, (k - 1) as nat);
        assert(word_at(d, k - 1) <= 0xFFFF);
    }
}

/// The Internet checksum (RFC 1071) of `data`.
pub fn net_ip_checksum(data: &[u8]) -> (r: u16)
    requires
        data@.len() <= MAX_CHECKSUM_INPUT,
    ensures
        r == ip_checksum(data@),
{
    let ghost d = data@;
    let mut sum: u32 = 0;
    let mut i: usize = 0;
    while i + 1 < data.len()
        invariant
            d == data@,
            d.len() <= MAX_CHECKSUM_INPUT,
            i % 2 == 0,
            i <= d.len(),
            sum == sum_words(d, (i / 2) as nat),
        decreases data.len() - i,
    {
        proof {
            lemma_sum_words_bound(d, (i / 2) as nat);
            assert(sum_words(d, (i / 2 + 1) as nat) == sum + word_at(d, (i / 2) as int));
        }
        sum = sum + ((data[i] as u32) * 256 + data[i + 1] as u32);
        i = i + 2;
    }
    if i < data.len() {
        proof {
            lemma_sum_words_bound(d, (i / 2) as nat);
            assert(sum_words(d, (i / 2 + 1) as nat) == sum + word_at(d, (i / 2) as int));
        }
        sum = sum + (data[i] as u32) * 256;
        i = i + 2;
    }
    assert(i / 2 == (d.len() + 1) / 2);
    while sum > 0xFFFF
        invariant
            fold16(sum as int) == fold16(sum_words(d, ((d.len() + 1) / 2) as nat)),
        decreases sum,
    {
        proof {
            assert(sum & 0xFFFF == sum % 0x1_0000) by (bit_vector);
            assert(sum >> 16 == sum / 0x1_0000) by (bit_vector);
        }
        sum = (sum & 0xFFFF) + (sum >> 16);
    }
    !(sum as u16)
}

/// Copies `n` bytes of `src` from `from` into `dst` at `at`.
fn copy_bytes(dst: &mut [u8; 42], at: usize, src: &[u8], from: usize, n: usize)
    requires
        at + n <= 42,
        from + n <= src@.len(),
    ensures
        final(dst)@ == old(dst)@.take(at as int) + src@.subrange(from as int, from + n) + old(
            dst,
        )@.skip(at + n),
{
    let ghost d0 = dst@;
    let slen = src.len();
    let mut i: usize = 0;
    while i < n
        invariant
            i <= n,
            at + n <= 42,
            from + n <= slen == src@.len(),
            forall|j: int| 0 <= j < 42 ==> #[trigger] dst@[j] == if at <= j < at + i {
                src@[from + j - at]
            } else {
                d0[j]
            },
        decreases n - i,
    {
        dst[at + i] = src[from + i];
        i = i + 1;
    }
    assert(dst@ =~= d0.take(at as int) + src@.subrange(from as int, from + n) + d0.skip(at + n));
}

/// The ARP reply to the request `f`, from `mac`.
pub open spec fn arp_reply(f: Seq<u8>, mac: Seq<u8>) -> Seq<u8> {
    f.subrange(6, 12) + mac + seq![0x08u8, 0x06, 0x00, 0x01, 0x08, 0x00, 6, 4, 0x00, 0x02] + mac
        + guest_ip() + f.subrange(22, 28) + f.subrange(28, 32)
}

/// `f` is an ARP request asking for the guest address.
pub open spec fn is_arp_request_for_guest(f: Seq<u8>) -> bool {
    &&& f.len() >= ARP_FRAME_LEN
    &&& f[20] == 0 && f[21] == 1
    &&& f.subrange(38, 42) == guest_ip()
}

/// Builds the reply to an ARP request for the guest address; `None` for
/// any other frame.
pub fn net_handle_arp(frame: &[u8], mac: &[u8; 6]) -> (r: Option<[u8; 42]>)
    ensures
        r is Some <==> is_arp_request_for_guest(frame@),
        r is Some ==> r.unwrap()@ == arp_reply(frame@, mac@),
{
    if frame.len() < ARP_FRAME_LEN {
        return None;
    }
    if !(frame[20] == 0 && frame[21] == 1) {
        return None;
    }
    if !(frame[38] == 10 && frame[39] == 0 && frame[40] == 2 && frame[41] == 15) {
        assert(frame@.subrange(38, 42) != guest_ip()) by {
            if frame@.subrange(38, 42) == guest_ip() {
                assert(frame@.subrange(38, 42)[0] == frame@[38]);
                assert(frame@.subrange(38, 42)[1] == frame@[39]);
                assert(frame@.subrange(38, 42)[2] == frame@[40]);
                assert(frame@.subrange(38, 42)[3] == frame@[41]);
            }
        }
        return None;
    }
    assert(frame@.subrange(38, 42) =~= guest_ip());
    let mut reply = [0u8; 42];
    copy_bytes(&mut reply, 0, frame, 6, 6);
    copy_bytes(&mut reply, 6, mac.as_slice(), 0, 6);
    copy_bytes(&mut reply, 22, mac.as_slice(), 0, 6);
    copy_bytes(&mut reply, 32, frame, 22, 6);
    reply[12] = 0x08;
    reply[13] = 0x06;
    reply[14] = 0x00;
    reply[15] = 0x01;
    reply[16] = 0x08;
    reply[17] = 0x00;
    reply[18] = 6;
    reply[19] = 4;
    reply[20] = 0x00;
    reply[21] = 0x02;
    reply[28] = 10;
    reply[29] = 0;
    reply[30] = 2;
    reply[31] = 15;
    reply[38] = frame[28];
    reply[39] = frame[29];
    reply[40] = frame[30];
    reply[41] = frame[31];
    assert(reply@ =~= arp_reply(frame@, mac@));
    Some(reply)
}

/// IPv4 header length of the frame `f`, in bytes.
pub open spec fn ihl(f: Seq<u8>) -> int {
    ((f[14] & 0x0F) as int) * 4
}

/// Offset of the UDP header in `f`.
pub open spec fn udp_off(f: Seq<u8>) -> int {
    14 + ihl(f)
}

/// `f` is a UDP datagram for the guest's echo port that fits a frame.
pub open spec fn is_udp_echo_request(f: Seq<u8>) -> bool {
    &&& f.len() >= 15
    &&& ihl(f) >= 20
    &&& f.len() >= udp_off(f) + 8
    &&& f[23] == 17
    &&& f.subrange(30, 34) == guest_ip()
    &&& f[udp_off(f) + 2] == 0 && f[udp_off(f) + 3] == NET_ECHO_PORT
    &&& f.len() <= MAX_FRAME
}

/// The IPv4 header of the echo: addresses swapped, checksum field zero.
pub open spec fn echo_header(f: Seq<u8>) -> Seq<u8> {
    Seq::new(
        ihl(f) as nat,
        |i: int|
            if 12 <= i < 16 {
                f[14 + i + 4]
            } else if 16 <= i < 20 {
                f[14 + i - 4]
            } else if i == 10 || i == 11 {
                0u8
            } else {
                f[14 + i]
            },
    )
}

/// The echo of the datagram `f`, sent from `mac`: Ethernet addresses,
/// IPv4 addresses and UDP ports swapped, the IPv4 checksum recomputed and
/// the UDP checksum cleared.
pub open spec fn udp_echo_reply(f: Seq<u8>, mac: Seq<u8>) -> Seq<u8> {
    let u = udp_off(f);
    let ck = ip_checksum(echo_header(f));
    Seq::new(
        f.len(),
        |x: int|
            if x < 6 {
                f[6 + x]
            } else if x < 12 {
                mac[x - 6]
            } else if 14 <= x < u {
                if x == 24 {
                    (ck >> 8) as u8
                } else if x == 25 {
                    (ck & 0xFF) as u8
                } else {
                    echo_header(f)[x - 14]
                }
            } else if x == u {
                f[u + 2]
            } else if x == u + 1 {
                f[u + 3]
            } else if x == u + 2 {
                f[u]
            } else if x == u + 3 {
                f[u + 1]
            } else if x == u + 6 || x == u + 7 {
                0u8
            } else {
                f[x]
            },
    )
}

/// The bytes `s[from .. from + n]`.
fn sub_slice(s: &[u8], from: usize, n: usize) -> (r: &[u8])
    requires
        from + n <= s@.len(),
    ensures
        r@ == s@.subrange(from as int, from + n),
{
    let (_a, b) = s.split_at(from);
    let (c, _d) = b.split_at(n);
    assert(c@ =~= s@.subrange(from as int, from + n));
    c
}

/// Builds the echo of a UDP datagram for the guest's echo port; `None` for
/// any other IPv4 frame.
pub fn net_handle_ipv4(frame: &[u8], mac: &[u8; 6]) -> (r: Option<std::vec::Vec<u8>>)
    ensures
        r is Some <==> is_udp_echo_request(frame@),
        r is Some ==> r.unwrap()@ == udp_echo_reply(frame@, mac@),
{
    let total = frame.len();
    if total < 15 {
        return None;
    }
    let ip_hdr_len = ((frame[14] & 0x0F) as usize) * 4;
    if ip_hdr_len < 20 {
        return None;
    }
    if total < 14 + ip_hdr_len + 8 {
        return None;
    }
    if frame[23] != 17 {
        return None;
    }
    if !(frame[30] == 10 && frame[31] == 0 && frame[32] == 2 && frame[33] == 15) {
        assert(frame@.subrange(30, 34) != guest_ip()) by {
            if frame@.subrange(30, 34) == guest_ip() {
                assert(frame@.subrange(30, 34)[0] == frame@[30]);
                assert(frame@.subrange(30, 34)[1] == frame@[31]);
                assert(frame@.subrange(30, 34)[2] == frame@[32]);
                assert(frame@.subrange(30, 34)[3] == frame@[33]);
            }
        }
        return None;
    }
    assert(frame@.subrange(30, 34) =~= guest_ip());
    let u = 14 + ip_hdr_len;
    if !(frame[u + 2] == 0 && frame[u + 3] == 7) {
        return None;
    }
    if total > MAX_FRAME {
        return None;
    }
    let ghost f = frame@;
    let mut reply: std::vec::Vec<u8> = std::vec::Vec::new();
    let mut i: usize = 0;
    while i < total
        invariant
            i <= total == f.len(),
            f == frame@,
            reply@ == f.take(i as int),
        decreases total - i,
    {
        reply.push(frame[i]);
        i = i + 1;
        assert(reply@ =~= f.take(i as int));
    }
    assert(reply@ =~= f);
    let mut j: usize = 0;
    while j < 6
        invariant
            j <= 6,
            f == frame@,
            reply@.len() == f.len(),
            f.len() >= 42,
            forall|x: int|
                0 <= x < f.len() ==> #[trigger] reply@[x] == if x < j {
                    f[6 + x]
                } else if 6 <= x < 6 + j {
                    mac@[x - 6]
                } else {
                    f[x]
                },
        decreases 6 - j,
    {
        reply.set(j, frame[6 + j]);
        reply.set(6 + j, mac[j]);
        j = j + 1;
    }
    reply.set(26, frame[30]);
    reply.set(27, frame[31]);
    reply.set(28, frame[32]);
    reply.set(29, frame[33]);
    reply.set(30, frame[26]);
    reply.set(31, frame[27]);
    reply.set(32, frame[28]);
    reply.set(33, frame[29]);
    reply.set(24, 0);
    reply.set(25, 0);
    let hdr = sub_slice(reply.as_slice(), 14, ip_hdr_len);
    assert(hdr@ =~= echo_header(f));
    let cksum = net_ip_checksum(hdr);
    reply.set(24, (cksum >> 8) as u8);
    reply.set(25, (cksum & 0xFF) as u8);
    reply.set(u, frame[u + 2]);
    reply.set(u + 1, frame[u + 3]);
    reply.set(u + 2, frame[u]);
    reply.set(u + 3, frame[u + 1]);
    reply.set(u + 6, 0);
    reply.set(u + 7, 0);
    assert(reply@ =~= udp_echo_reply(f, mac@));
    Some(reply)
}

/// What the network layer sends back for a received frame.
pub enum NetReply {
    /// Nothing to send.
    Ignore,
    /// An ARP reply.
    Arp([u8; 42]),
    /// A UDP echo.
    UdpEcho(std::vec::Vec<u8>),
}

/// Dispatches a received Ethernet frame by its EtherType: ARP (0x0806) and
/// IPv4 (0x0800) are handled, anything else is ignored.
pub fn net_handle_frame(frame: &[u8], mac: &[u8; 6]) -> (r: NetReply)
    ensures
        ({
            let f = frame@;
            match r {
                NetReply::Ignore => f.len() < 14 || !((f[12] == 0x08 && f[13] == 0x06
                    && is_arp_request_for_guest(f)) || (f[12] == 0x08 && f[13] == 0x00
                    && is_udp_echo_request(f))),
                NetReply::Arp(a) => f.len() >= 14 && f[12] == 0x08 && f[13] == 0x06
                    && is_arp_request_for_guest(f) && a@ == arp_reply(f, mac@),
                NetReply::UdpEcho(v) => f.len() >= 14 && f[12] == 0x08 && f[13] == 0x00
                    && is_udp_echo_request(f) && v@ == udp_echo_reply(f, mac@),
            }
        }),
{
    if frame.len() < 14 {
        return NetReply::Ignore;
    }
    if frame[12] == 0x08 && frame[13] == 0x06 {
        match net_handle_arp(frame, mac) {
            Some(a) => NetReply::Arp(a),
            None => NetReply::Ignore,
        }
    } else if frame[12] == 0x08 && frame[13] == 0x00 {
        match net_handle_ipv4(frame, mac) {
            Some(v) => NetReply::UdpEcho(v),
            None => NetReply::Ignore,
        }
    } else {
        NetReply::Ignore
    }
}

} // verus!
