use kernel_rs::desc::{gdt_entries, idt_set_gate, pit_divisor, serial_write_hex, GATE_KERNEL, GATE_USER};
use kernel_rs::fs::{find_file, parse_superblock, read_le_u32, verify_pkg, FileEntry, PkgError};
use kernel_rs::net::{net_handle_arp, net_handle_frame, net_handle_ipv4, net_ip_checksum, NetReply};
use kernel_rs::sha256::{sha256_compress, sha256_digest, sha256_rotr};
use kernel_rs::virtio::{
    avail_slot, bar_io_base, blk_kv2p, blk_len_ok, blk_queue_layout, blk_request_chain,
    blk_request_header, net_queue_layout, net_rx_copy_len, net_tx_buffer, pci_config_address,
    pci_enable_io_and_master, pci_find_virtio, poll_step, queue_layout, PollStep, used_entry, QueueLayout, VringDesc,
    VIRTIO_BLK_DEVICE, VIRTIO_NET_DEVICE,
};

fn hex(bytes: &[u8]) -> String {
    bytes.iter().map(|b| format!("{:02x}", b)).collect()
}

#[test]
fn rotr_rotates() {
    assert_eq!(sha256_rotr(1, 1), 0x8000_0000);
    assert_eq!(sha256_rotr(0x1234_5678, 8), 0x7812_3456);
    assert_eq!(sha256_rotr(0x8000_0000, 31), 1);
}

#[test]
fn sha256_known_digests() {
    assert_eq!(
        hex(&sha256_digest(b"")),
        "e3b0c44298fc1c149afbf4c8996fb92427ae41e4649b934ca495991b7852b855"
    );
    assert_eq!(
        hex(&sha256_digest(b"abc")),
        "ba7816bf8f01cfea414140de5dae2223b00361a396177a9cb410ff61f20015ad"
    );
    assert_eq!(
        hex(&sha256_digest(b"abcdbcdecdefdefgefghfghighijhijkijkljklmklmnlmnomnopnopq")),
        "248d6a61d20638b8e5c026930c3e6039a33ce45964ff2167f6ecedd419db06c1"
    );
    let long = vec![b'a'; 1000];
    assert_eq!(
        hex(&sha256_digest(&long)),
        "41edece42d63e8d9bf515a9ba6932e1c20cbc9f5a5d134645adb5db1b9737ea3"
    );
}

#[test]
fn compress_changes_every_word() {
    let mut state = [
        0x6a09e667u32, 0xbb67ae85, 0x3c6ef372, 0xa54ff53a, 0x510e527f, 0x9b05688c, 0x1f83d9ab,
        0x5be0cd19,
    ];
    let mut block = [0u8; 64];
    block[0] = 0x80;
    sha256_compress(&mut state, &block);
    assert_eq!(state[0], 0xe3b0c442);
    assert_eq!(state[7], 0x7852b855);
}

#[test]
fn ip_checksum_examples() {
    let hdr = [
        0x45, 0x00, 0x00, 0x73, 0x00, 0x00, 0x40, 0x00, 0x40, 0x11, 0x00, 0x00, 0xc0, 0xa8, 0x00,
        0x01, 0xc0, 0xa8, 0x00, 0xc7,
    ];
    assert_eq!(net_ip_checksum(&hdr), 0xb861);
    assert_eq!(net_ip_checksum(&[0x01]), 0xFEFF);
    assert_eq!(net_ip_checksum(&[]), 0xFFFF);
    assert_eq!(net_ip_checksum(&[0xFF, 0xFF, 0x00, 0x01]), 0xFFFE);
}

fn arp_request() -> Vec<u8> {
    let mut f = vec![0u8; 42];
    f[0..6].copy_from_slice(&[0xff; 6]);
    f[6..12].copy_from_slice(&[0x52, 0x55, 0x0a, 0x00, 0x02, 0x02]);
    f[12] = 0x08;
    f[13] = 0x06;
    f[14..22].copy_from_slice(&[0, 1, 8, 0, 6, 4, 0, 1]);
    f[22..28].copy_from_slice(&[0x52, 0x55, 0x0a, 0x00, 0x02, 0x02]);
    f[28..32].copy_from_slice(&[10, 0, 2, 2]);
    f[38..42].copy_from_slice(&[10, 0, 2, 15]);
    f
}

const MAC: [u8; 6] = [0x52, 0x54, 0x00, 0x12, 0x34, 0x56];

#[test]
fn arp_reply_for_guest_ip() {
    let f = arp_request();
    let r = net_handle_arp(&f, &MAC).unwrap();
    assert_eq!(&r[0..6], &f[6..12]);
    assert_eq!(&r[6..12], &MAC);
    assert_eq!(&r[12..22], &[0x08, 0x06, 0, 1, 8, 0, 6, 4, 0, 2]);
    assert_eq!(&r[22..28], &MAC);
    assert_eq!(&r[28..32], &[10, 0, 2, 15]);
    assert_eq!(&r[32..38], &f[22..28]);
    assert_eq!(&r[38..42], &[10, 0, 2, 2]);
    let mut other = f.clone();
    other[41] = 16;
    assert!(net_handle_arp(&other, &MAC).is_none());
    let mut reply_op = f.clone();
    reply_op[21] = 2;
    assert!(net_handle_arp(&reply_op, &MAC).is_none());
    assert!(net_handle_arp(&f[..41], &MAC).is_none());
    assert!(matches!(net_handle_frame(&f, &MAC), NetReply::Arp(_)));
}

fn udp_frame(port: u16, payload: &[u8]) -> Vec<u8> {
    let mut f = vec![0u8; 42];
    f[0..6].copy_from_slice(&MAC);
    f[6..12].copy_from_slice(&[0x52, 0x55, 0x0a, 0x00, 0x02, 0x02]);
    f[12] = 0x08;
    f[13] = 0x00;
    f[14] = 0x45;
    let total = (20 + 8 + payload.len()) as u16;
    f[16..18].copy_from_slice(&total.to_be_bytes());
    f[22] = 64;
    f[23] = 17;
    f[26..30].copy_from_slice(&[10, 0, 2, 2]);
    f[30..34].copy_from_slice(&[10, 0, 2, 15]);
    f[34..36].copy_from_slice(&4321u16.to_be_bytes());
    f[36..38].copy_from_slice(&port.to_be_bytes());
    f[38..40].copy_from_slice(&((8 + payload.len()) as u16).to_be_bytes());
    f[40] = 0x12;
    f[41] = 0x34;
    f.extend_from_slice(payload);
    f
}

#[test]
fn udp_echo_swaps_and_rechecksums() {
    let f = udp_frame(7, b"P-payload");
    let r = net_handle_ipv4(&f, &MAC).unwrap();
    assert_eq!(r.len(), f.len());
    assert_eq!(&r[0..6], &f[6..12]);
    assert_eq!(&r[6..12], &MAC);
    assert_eq!(&r[26..30], &[10, 0, 2, 15]);
    assert_eq!(&r[30..34], &[10, 0, 2, 2]);
    assert_eq!(&r[34..36], &7u16.to_be_bytes());
    assert_eq!(&r[36..38], &4321u16.to_be_bytes());
    assert_eq!(&r[40..42], &[0, 0]);
    assert_eq!(&r[42..], b"P-payload");
    assert_eq!(net_ip_checksum(&r[14..34]), 0);
    assert!(net_handle_ipv4(&udp_frame(8, b"x"), &MAC).is_none());
    let mut tcp = f.clone();
    tcp[23] = 6;
    assert!(net_handle_ipv4(&tcp, &MAC).is_none());
    let mut elsewhere = f.clone();
    elsewhere[33] = 16;
    assert!(net_handle_ipv4(&elsewhere, &MAC).is_none());
    assert!(net_handle_ipv4(&f[..14], &MAC).is_none());
    match net_handle_frame(&f, &MAC) {
        NetReply::UdpEcho(v) => assert_eq!(v, r),
        _ => panic!("expected an echo"),
    }
    let mut other_type = f.clone();
    other_type[13] = 0xdd;
    assert!(matches!(net_handle_frame(&other_type, &MAC), NetReply::Ignore));
    assert!(matches!(net_handle_frame(&f[..10], &MAC), NetReply::Ignore));
}

#[test]
fn queue_layouts() {
    assert_eq!(queue_layout(256), QueueLayout { avail_off: 4096, used_off: 8192, used_end: 10246 });
    assert_eq!(queue_layout(128), QueueLayout { avail_off: 2048, used_off: 4096, used_end: 5126 });
    assert_eq!(blk_queue_layout(256), Some(queue_layout(256)));
    assert_eq!(blk_queue_layout(0), None);
    assert_eq!(blk_queue_layout(257), None);
    assert_eq!(net_queue_layout(256), Some(queue_layout(256)));
    assert_eq!(net_queue_layout(512), None);
    assert_eq!(net_queue_layout(1024), None);
    assert_eq!(net_queue_layout(0), None);
}

#[test]
fn block_request_encoding() {
    assert!(blk_len_ok(512));
    assert!(blk_len_ok(4096));
    assert!(!blk_len_ok(513));
    assert!(!blk_len_ok(0));
    assert!(!blk_len_ok(4608));
    let c = blk_request_chain(false, 512, 0x1000, 0x2000, 0x1010);
    assert_eq!(c[0], VringDesc { addr: 0x1000, len: 16, flags: 1, next: 1 });
    assert_eq!(c[1], VringDesc { addr: 0x2000, len: 512, flags: 3, next: 2 });
    assert_eq!(c[2], VringDesc { addr: 0x1010, len: 1, flags: 2, next: 0 });
    assert_eq!(blk_request_chain(true, 512, 0, 0, 0)[1].flags, 1);
    let h = blk_request_header(true, 0x0102_0304_0506_0708);
    assert_eq!(h, [1, 0, 0, 0, 0, 0, 0, 0, 8, 7, 6, 5, 4, 3, 2, 1]);
    assert_eq!(blk_request_header(false, 3), [0, 0, 0, 0, 0, 0, 0, 0, 3, 0, 0, 0, 0, 0, 0, 0]);
    assert_eq!(avail_slot(5, 4), 3);
    assert_eq!(avail_slot(65535, 256), 2 + 255);
    assert_eq!(used_entry(0, 256), 255);
    assert_eq!(used_entry(3, 256), 2);
    assert_eq!(blk_kv2p(0xFFFF_FFFF_8000_1000, 0x8000_0000_u64.wrapping_sub(0xFFFF_FFFF_8000_0000)), 0x8000_1000);
}

#[test]
fn pci_discovery() {
    assert_eq!(pci_config_address(0, 3, 0, 0x10), 0x8000_1810);
    assert_eq!(pci_config_address(1, 31, 7, 0x13), 0x8001_FF10);
    let ids = [0x1237_8086u32, 0x1000_1AF4, 0x1001_1AF4, 0xFFFF_FFFF];
    assert_eq!(pci_find_virtio(&ids, VIRTIO_BLK_DEVICE), Some(2));
    assert_eq!(pci_find_virtio(&ids, VIRTIO_NET_DEVICE), Some(1));
    assert_eq!(pci_find_virtio(&ids[..1], VIRTIO_NET_DEVICE), None);
    assert_eq!(bar_io_base(0xC041), 0xC040);
    assert_eq!(pci_enable_io_and_master(0x0010), 0x0015);
}

#[test]
fn net_framing() {
    assert_eq!(net_rx_copy_len(10, 1514), 0);
    assert_eq!(net_rx_copy_len(70, 1514), 60);
    assert_eq!(net_rx_copy_len(2000, 1514), 1514);
    let b = net_tx_buffer(b"frame").unwrap();
    assert_eq!(&b[..10], &[0u8; 10]);
    assert_eq!(&b[10..], b"frame");
    assert!(net_tx_buffer(&vec![0u8; 4087]).is_none());
    assert_eq!(net_tx_buffer(&vec![1u8; 4086]).unwrap().len(), 4096);
}

fn disk_image() -> (Vec<u8>, Vec<u8>, Vec<u8>) {
    let mut sb = vec![0u8; 512];
    sb[0..4].copy_from_slice(&0x5346_5331u32.to_le_bytes());
    sb[4..8].copy_from_slice(&2u32.to_le_bytes());
    let mut ft = vec![0u8; 512];
    ft[0..9].copy_from_slice(b"readme.md");
    ft[24..28].copy_from_slice(&5u32.to_le_bytes());
    ft[28..32].copy_from_slice(&100u32.to_le_bytes());
    ft[32..41].copy_from_slice(b"hello.pkg");
    ft[56..60].copy_from_slice(&7u32.to_le_bytes());
    ft[60..64].copy_from_slice(&96u32.to_le_bytes());
    let bin = b"\xb8\x01\x00\x00\x00\xcd\x80\xf4";
    let mut pkg = vec![0u8; 512];
    pkg[0..4].copy_from_slice(b"PKG\x01");
    pkg[4..8].copy_from_slice(&(bin.len() as u32).to_le_bytes());
    pkg[8..13].copy_from_slice(b"hello");
    pkg[32..64].copy_from_slice(&sha256_digest(bin));
    pkg[64..64 + bin.len()].copy_from_slice(bin);
    (sb, ft, pkg)
}

#[test]
fn simplefs_lookup() {
    let (sb, ft, _) = disk_image();
    assert_eq!(parse_superblock(&sb), Some(2));
    let mut bad = sb.clone();
    bad[0] = 0;
    assert_eq!(parse_superblock(&bad), None);
    assert_eq!(parse_superblock(&sb[..7]), None);
    assert_eq!(find_file(&ft, 2, b"hello.pkg"), Some(FileEntry { start_sector: 7, length: 96 }));
    assert_eq!(find_file(&ft, 2, b"readme.md"), Some(FileEntry { start_sector: 5, length: 100 }));
    assert_eq!(find_file(&ft, 1, b"hello.pkg"), None);
    assert_eq!(find_file(&ft, 2, b"hello"), None);
    assert_eq!(find_file(&ft, 2, b"hello.pk"), None);
    assert_eq!(find_file(&ft, 99, b"hello.pkg"), Some(FileEntry { start_sector: 7, length: 96 }));
    assert_eq!(read_le_u32(&ft, 24), 5);
}

#[test]
fn package_checks() {
    let (_, _, pkg) = disk_image();
    assert_eq!(verify_pkg(&pkg), Ok(8));
    let mut bad_hash = pkg.clone();
    bad_hash[64] ^= 1;
    assert_eq!(verify_pkg(&bad_hash), Err(PkgError::BadHash));
    let mut bad_magic = pkg.clone();
    bad_magic[3] = 2;
    assert_eq!(verify_pkg(&bad_magic), Err(PkgError::BadMagic));
    let mut zero = pkg.clone();
    zero[4..8].copy_from_slice(&0u32.to_le_bytes());
    assert_eq!(verify_pkg(&zero), Err(PkgError::BadSize));
    let mut big = pkg.clone();
    big[4..8].copy_from_slice(&4033u32.to_le_bytes());
    assert_eq!(verify_pkg(&big), Err(PkgError::BadSize));
    assert_eq!(verify_pkg(&pkg[..80]), Ok(8));
    assert_eq!(verify_pkg(&pkg[..70]), Err(PkgError::BadSize));
    assert_eq!(verify_pkg(&pkg[..63]), Err(PkgError::BadMagic));
}

#[test]
fn descriptor_encodings() {
    assert_eq!(&serial_write_hex(0xDEAD), b"000000000000DEAD");
    assert_eq!(&serial_write_hex(0x0123_4567_89AB_CDEF), b"0123456789ABCDEF");
    let g = idt_set_gate(14, 0xFFFF_FFFF_8012_3456);
    assert_eq!(g.offset_low, 0x3456);
    assert_eq!(g.offset_mid, 0x8012);
    assert_eq!(g.offset_high, 0xFFFF_FFFF);
    assert_eq!(g.selector, 0x08);
    assert_eq!(g.type_attr, GATE_KERNEL);
    assert_eq!(idt_set_gate(128, 0).type_attr, GATE_USER);
    let gdt = gdt_entries(0xFFFF_FFFF_8123_4567);
    assert_eq!(gdt[1], 0x00AF_9A00_0000_FFFF);
    assert_eq!(gdt[5], 0x8100_8923_4567_0067);
    assert_eq!(gdt[6], 0xFFFF_FFFF);
    assert_eq!(pit_divisor(100), 11931);
}

#[test]
fn polling_steps() {
    assert_eq!(poll_step(4, 3, 10), PollStep::Done);
    assert_eq!(poll_step(3, 3, 10), PollStep::Wait);
    assert_eq!(poll_step(3, 3, 1), PollStep::TimedOut);
    assert_eq!(poll_step(0, 65535, 0), PollStep::Done);
}

#[test]
fn checksum_of_large_input() {
    let data = vec![0xFFu8; 131_070];
    assert_eq!(net_ip_checksum(&data), 0);
}
