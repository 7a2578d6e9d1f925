use gh_release_notify::ip::ip;

#[test]
fn reads_ipv4_addresses() {
    for good in ["0.0.0.0", "127.0.0.1", "255.255.255.255", "1.20.3.40"] {
        assert!(ip(good), "{good}");
    }
    for bad in [
        "", "1.2.3", "1.2.3.4.5", "256.0.0.1", "01.2.3.4", "1.2.3.4 ", "1..2.3", "+1.2.3.4",
        "1.2.3.-4", "1.2.3.4:80", "0000.0.0.0",
    ] {
        assert!(!ip(bad), "{bad}");
    }
}

#[test]
fn reads_ipv6_addresses() {
    for good in [
        "::", "::1", "1::", "1:2:3:4:5:6:7:8", "1:2:3:4:5:6:7::", "::2:3:4:5:6:7:8", "fe80::abCD",
        "1:2:3:4:5:6:1.2.3.4", "::ffff:1.2.3.4", "1::2:1.2.3.4", "::1.2.3.4",
    ] {
        assert!(ip(good), "{good}");
    }
    for bad in [
        ":", ":::", "1:2:3:4:5:6:7", "1:2:3:4:5:6:7:8:9", "1:2:3:4:5:6:7:8::", "::1::2", "1:::2",
        "12345::", "g::", "1.2.3.4::", "1:2:3:4:5:6:7:1.2.3.4", "::1.2.3.4:1", "::1.2.3", "fe80::1%eth0",
        "[::1]", ":1:2:3:4:5:6:7:8", "::1:2:3:4:5:6:7:8",
    ] {
        assert!(!ip(bad), "{bad}");
    }
}
