use spinup::wol::{build_frame, build_wol_packet, frame_for, parse_mac, vlan_to_bytes, Interface, WOLError};

const SIZE_DST_MAC: usize = 6;
const SIZE_SRC_MAC: usize = 6;
const SIZE_ETHERTYPE: usize = 2;
const SIZE_VLAN_ETHERTYPE: usize = 2;
const SIZE_VLAN_TAG: usize = 2;
const SIZE_WOL_PAYLOAD: usize = 102;

#[test]
fn test_invalid_mac_address() {
    let invalid_mac = "random MAC";
    let interface_name = "eth0";

    let result = build_wol_packet(invalid_mac, interface_name, None);
    assert!(
        matches!(result, Err(WOLError::InvalidMAC(_))),
        "Expected InvalidMAC error."
    );
}

#[test]
fn test_missing_network_interface() {
    let mac = "00:11:22:33:44:55";
    let non_existent_interface = "nonexistent_iface";

    let result = build_wol_packet(mac, non_existent_interface, None);
    assert!(
        matches!(result, Err(WOLError::InterfaceNotFound(_))),
        "Expected InterfaceNotFound error."
    );
}

#[test]
fn test_ethernet_packet() {
    let maybe_mac = "01:23:45:67:89:AB";
    let mac = maybe_mac.parse::<pnet::util::MacAddr>().unwrap();
    let dest_mac = pnet::util::MacAddr::broadcast();

    let interface = pnet::datalink::interfaces()
        .into_iter()
        .find(|iface| iface.mac.is_some())
        .expect("cannot find an interface with a MAC address for testing");

    let payload_size = SIZE_WOL_PAYLOAD;
    let packet_size = SIZE_DST_MAC + SIZE_SRC_MAC + SIZE_ETHERTYPE + payload_size;

    let (buffer, _interface) =
        build_wol_packet(maybe_mac, &interface.name, None).expect("failed to build test packet");

    assert_eq!(packet_size, buffer.len());

    // L2 broadcast address
    assert_eq!(dest_mac.octets(), buffer[..6]);
    // Source MAC
    assert_eq!(interface.mac.unwrap().octets(), buffer[6..12]);
    // WOL Ethertype
    assert_eq!(vec![0x08, 0x42], buffer[12..14]);
    // WOL packet prefix
    assert_eq!(vec![0xFF; 6], buffer[14..20]);
    // WOL target MAC x 16
    assert_eq!(mac.octets().repeat(16), buffer[20..]);
}

#[test]
fn test_ethernet_packet_with_vlan() {
    let maybe_mac = "01:23:45:67:89:AB";
    let mac = maybe_mac.parse::<pnet::util::MacAddr>().unwrap();
    let dest_mac = pnet::util::MacAddr::broadcast();
    let vlan_id = Some(0x0101);

    let interface = pnet::datalink::interfaces()
        .into_iter()
        .find(|iface| iface.mac.is_some())
        .expect("cannot find an interface with a MAC address for testing");

    let payload_size = SIZE_VLAN_TAG + SIZE_VLAN_ETHERTYPE + SIZE_WOL_PAYLOAD;
    let packet_size = SIZE_DST_MAC + SIZE_SRC_MAC + SIZE_ETHERTYPE + payload_size;

    let (buffer, _interface) = build_wol_packet(maybe_mac, &interface.name, vlan_id)
        .expect("failed to build test packet");

    assert_eq!(packet_size, buffer.len());

    // L2 broadcast address
    assert_eq!(dest_mac.octets(), buffer[..6]);
    // Source MAC
    assert_eq!(interface.mac.unwrap().octets(), buffer[6..12]);
    // VLAN Ethertype
    assert_eq!(vec![0x81, 0x00], buffer[12..14]);
    // VLAN Tag
    assert_eq!(vec![0x01, 0x01], buffer[14..16]);
    // WOL Ethertype
    assert_eq!(vec![0x08, 0x42], buffer[16..18]);
    // WOL packet prefix
    assert_eq!(vec![0xFF; 6], buffer[18..24]);
    // WOL target MAC x 16
    assert_eq!(mac.octets().repeat(16), buffer[24..]);
}

#[test]
fn test_parse_mac_octets() {
    assert_eq!(
        parse_mac("01:23:45:67:89:AB"),
        Some([0x01, 0x23, 0x45, 0x67, 0x89, 0xAB])
    );
    assert_eq!(
        parse_mac("ff:ee:dd:cc:bb:aa"),
        Some([0xFF, 0xEE, 0xDD, 0xCC, 0xBB, 0xAA])
    );
    // single-digit components are accepted, as pnet's parser accepts them
    assert_eq!(parse_mac("0:1:2:3:4:5"), Some([0, 1, 2, 3, 4, 5]));
    assert_eq!(parse_mac("0:11:22:33:44:55"), Some([0x00, 0x11, 0x22, 0x33, 0x44, 0x55]));
    assert_eq!(
        "0:1:2:3:4:5".parse::<pnet::util::MacAddr>().unwrap().octets(),
        [0, 1, 2, 3, 4, 5]
    );
    assert_eq!(parse_mac("01:23:45:67:89"), None);
    assert_eq!(parse_mac("01:23:45:67:89:AB:CD"), None);
    assert_eq!(parse_mac("01-23-45-67-89-AB"), None);
    assert_eq!(parse_mac("0g:23:45:67:89:AB"), None);
    assert_eq!(parse_mac("012:23:45:67:89:AB"), None);
    assert_eq!(parse_mac("01:23:45:67:89:"), None);
}

#[test]
fn test_frame_for_error_taxonomy() {
    let ifaces = vec![
        Interface {
            name: "lan0".to_string(),
            mac: None,
        },
        Interface {
            name: "lan1".to_string(),
            mac: Some([0x12, 0x34, 0x56, 0x78, 0x9A, 0xBC]),
        },
    ];

    // malformed MAC wins over everything
    assert!(matches!(
        frame_for(&ifaces, "not a mac", "lan1", None),
        Err(WOLError::InvalidMAC(_))
    ));
    // unknown interface name
    assert!(matches!(
        frame_for(&ifaces, "01:23:45:67:89:AB", "lan2", None),
        Err(WOLError::InterfaceNotFound(_))
    ));
    // first interface of that name has no hardware address
    assert!(matches!(
        frame_for(&ifaces, "01:23:45:67:89:AB", "lan0", None),
        Err(WOLError::NetworkError(_))
    ));
    // found with a hardware address: the byte-exact frame
    let (buf, iface) =
        frame_for(&ifaces, "01:23:45:67:89:AB", "lan1", None).expect("frame must build");
    assert_eq!(iface.name, "lan1");
    assert_eq!(iface.mac, Some([0x12, 0x34, 0x56, 0x78, 0x9A, 0xBC]));
    assert_eq!(
        buf,
        build_frame(
            &[0x12, 0x34, 0x56, 0x78, 0x9A, 0xBC],
            None,
            &[0x01, 0x23, 0x45, 0x67, 0x89, 0xAB]
        )
    );
}

#[test]
fn test_frame_bytes_without_vlan() {
    let src = [0x12, 0x34, 0x56, 0x78, 0x9A, 0xBC];
    let target = [0x01, 0x23, 0x45, 0x67, 0x89, 0xAB];
    let buf = build_frame(&src, None, &target);

    let mut expected: Vec<u8> = vec![0xFF; 6];
    expected.extend_from_slice(&src);
    expected.extend_from_slice(&[0x08, 0x42]);
    expected.extend_from_slice(&[0xFF; 6]);
    for _ in 0..16 {
        expected.extend_from_slice(&target);
    }
    assert_eq!(expected.len(), 116);
    assert_eq!(buf, expected);
}

#[test]
fn test_frame_bytes_with_vlan() {
    let src = [0x12, 0x34, 0x56, 0x78, 0x9A, 0xBC];
    let target = [0x01, 0x23, 0x45, 0x67, 0x89, 0xAB];
    let buf = build_frame(&src, Some(0x0101), &target);

    assert_eq!(buf.len(), 120);
    assert_eq!(&buf[12..14], &[0x81, 0x00]);
    assert_eq!(&buf[14..16], &[0x01, 0x01]);
    assert_eq!(&buf[16..18], &[0x08, 0x42]);
    assert_eq!(&buf[18..24], &[0xFF; 6][..]);
    assert_eq!(buf[24..], target.repeat(16));
}

#[test]
fn test_vlan_tag_masks_to_twelve_bits() {
    assert_eq!(vlan_to_bytes(0x0101), vec![0x01, 0x01]);
    assert_eq!(vlan_to_bytes(0x0FFF), vec![0x0F, 0xFF]);
    // identifiers above 4095 are truncated to their low 12 bits
    assert_eq!(vlan_to_bytes(0xF234), vec![0x02, 0x34]);
    assert_eq!(vlan_to_bytes(0), vec![0x00, 0x00]);
}
