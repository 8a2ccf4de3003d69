use mesh_core::gateway::{classify_interface, InterfaceType};
use mesh_core::storage::Contact;
use mesh_core::transport::TcpTransport;

#[test]
fn test_classify_interface() {
    assert_eq!(classify_interface("Wi-Fi"), InterfaceType::WiFi);
    assert_eq!(classify_interface("wlan0"), InterfaceType::WiFi);
    assert_eq!(classify_interface("Ethernet"), InterfaceType::Ethernet);
    assert_eq!(classify_interface("eth0"), InterfaceType::Ethernet);
    assert_eq!(classify_interface("lo"), InterfaceType::Loopback);
    assert_eq!(classify_interface("rmnet0"), InterfaceType::Cellular);
}

#[test]
fn classification_order_and_fallback() {
    assert_eq!(classify_interface("LO0"), InterfaceType::Loopback);
    assert_eq!(classify_interface("Loopback Pseudo-Interface 1"), InterfaceType::Loopback);
    assert_eq!(classify_interface("wlp3s0"), InterfaceType::WiFi);
    assert_eq!(classify_interface("enp0s3"), InterfaceType::Ethernet);
    assert_eq!(classify_interface("ccmni1"), InterfaceType::Cellular);
    assert_eq!(classify_interface("Mobile Broadband"), InterfaceType::Cellular);
    assert_eq!(classify_interface("docker0"), InterfaceType::Other);
    assert_eq!(classify_interface(""), InterfaceType::Other);
    assert_eq!(InterfaceType::WiFi.as_str(), "wifi");
    assert_eq!(InterfaceType::Cellular.display_name(), "Cellular");
}

#[test]
fn contact_prefers_nickname() {
    let mut c = Contact {
        node_id: [1u8; 32],
        display_name: "Bob".into(),
        nickname: None,
        bio: String::new(),
        first_seen: 1000,
        last_seen: 2000,
        is_favorite: false,
        safety_number: None,
    };
    assert_eq!(c.effective_name(), "Bob");
    c.nickname = Some("Bobby".into());
    assert_eq!(c.effective_name(), "Bobby");
}

#[test]
fn transport_ports() {
    assert_eq!(TcpTransport::default_port(), 7332);
    assert_eq!(TcpTransport::new(9000).listen_port, 9000);
}
