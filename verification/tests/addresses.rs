use dsnitch::addr::IpAddr;

fn v6(groups: [u16; 8]) -> String {
    let mut octets = [0u8; 16];
    for i in 0..8 {
        octets[2 * i] = (groups[i] >> 8) as u8;
        octets[2 * i + 1] = groups[i] as u8;
    }
    IpAddr::v6(&octets).text()
}

#[test]
fn v4_text() {
    assert_eq!(IpAddr::v4(0, 0, 0, 0).text(), "0.0.0.0");
    assert_eq!(IpAddr::v4(93, 184, 216, 34).text(), "93.184.216.34");
    assert_eq!(IpAddr::v4(255, 255, 255, 255).text(), "255.255.255.255");
}

#[test]
fn v6_text() {
    assert_eq!(v6([0, 0, 0, 0, 0, 0, 0, 0]), "::");
    assert_eq!(v6([0, 0, 0, 0, 0, 0, 0, 1]), "::1");
    assert_eq!(v6([1, 0, 0, 0, 0, 0, 0, 0]), "1::");
    assert_eq!(v6([0x2001, 0xdb8, 0, 0, 0, 0, 0, 9]), "2001:db8::9");
    assert_eq!(v6([1, 2, 3, 4, 5, 6, 7, 8]), "1:2:3:4:5:6:7:8");
    assert_eq!(v6([0, 1, 2, 3, 4, 5, 6, 0xffff]), "0:1:2:3:4:5:6:ffff");
}

#[test]
fn v6_text_shortens_the_first_longest_run() {
    assert_eq!(v6([1, 0, 0, 2, 0, 0, 0, 3]), "1:0:0:2::3");
    assert_eq!(v6([1, 0, 0, 2, 3, 0, 0, 4]), "1::2:3:0:0:4");
    assert_eq!(v6([0, 0, 0, 2, 3, 0, 0, 0]), "::2:3:0:0:0");
}

#[test]
fn v6_text_of_mapped_addresses() {
    assert_eq!(v6([0, 0, 0, 0, 0, 0xffff, 0x0102, 0x0304]), "::ffff:1.2.3.4");
    assert_eq!(v6([0, 0, 0, 0, 0, 0xfffe, 0x0102, 0x0304]), "::fffe:102:304");
    assert_eq!(v6([0, 0, 0, 0, 0, 0, 0x0102, 0x0304]), "::102:304");
}

#[test]
fn keys_tell_versions_apart() {
    assert_eq!(IpAddr::V4(7).key(), (4, 7));
    assert_eq!(IpAddr::V6(7).key(), (6, 7));
}

#[test]
fn recorded_addresses() {
    let octets = [1, 2, 3, 4, 5, 6, 7, 8, 9, 10, 11, 12, 13, 14, 15, 16];
    assert_eq!(IpAddr::recorded(4, &octets), IpAddr::v4(1, 2, 3, 4));
    assert_eq!(IpAddr::recorded(6, &octets), IpAddr::v6(&octets));
    assert_eq!(IpAddr::recorded(0, &octets), IpAddr::v6(&octets));
    assert_eq!(
        IpAddr::v6(&octets),
        IpAddr::V6(0x0102_0304_0506_0708_090a_0b0c_0d0e_0f10),
    );
}
