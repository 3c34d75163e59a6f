use gen_ammo::ammo::usize_to_decimal;
use gen_ammo::parse::LogRecord;
use gen_ammo::{
    get_cgi_param_value_naive, get_host_port_resource_from_url, make_bullet_data_from_log_record,
    render_bullet, BulletData, StoredBullet,
};

#[test]
fn test_make_bullet_data_from_log_record() {
    {
        let rec = LogRecord {
            url: b"http://aaaa.bazar.bububu.net:12022/search?base=default.bazar-exp.fro01ht.bububu.ru&ip=&ip-xxds=1203&bububuuid=449823&puid=3975&currency=RUR&fuid=&place=prime&history_itemsts=".to_vec(),
            wizards: b"wiz1,wiz2,wiz3".to_vec(),
        };
        let data = make_bullet_data_from_log_record(rec);
        assert_eq!(data.resource, b"search?base=default.bazar-exp.fro01ht.bububu.ru&ip=&ip-xxds=1203&bububuuid=449823&puid=3975&currency=RUR&fuid=&place=prime&history_itemsts=".to_vec());
        assert_eq!(data.place, b"prime".to_vec());
        assert_eq!(data.host, b"aaaa.bazar.bububu.net".to_vec());
        assert_eq!(data.wizards, b"wiz1,wiz2,wiz3".to_vec());
    }
    {
        let rec = LogRecord { url: b"".to_vec(), wizards: b"".to_vec() };
        let data = make_bullet_data_from_log_record(rec);
        assert_eq!(data.resource, b"".to_vec());
        assert_eq!(data.place, b"".to_vec());
        assert_eq!(data.host, b"".to_vec());
        assert_eq!(data.wizards, b"".to_vec());
    }
}

#[test]
fn test_write_bullet() {
    let b = BulletData {
        host: b"localhost".to_vec(),
        resource: b"/search?place=dubai".to_vec(),
        place: b"dubai".to_vec(),
        wizards: b"".to_vec(),
    };
    let out = render_bullet(&b);
    // The embedded request is "GET //search?place=dubai HTTP/1.0..." of 74 bytes.
    let mut expected: Vec<u8> = Vec::new();
    expected.extend_from_slice(b"74 dubai\r\n");
    expected.extend_from_slice(b"GET //search?place=dubai HTTP/1.0\r\n");
    expected.extend_from_slice(b"User-Agent: tank\r\nConnection: close\r\n\r\n");
    expected.extend_from_slice(b"\r\n");
    assert_eq!(out, expected);
}

#[test]
fn cgi_param_doc_cases() {
    assert_eq!(
        get_cgi_param_value_naive(b"http://example.com?place=moscow", b"place").unwrap(),
        b"moscow".to_vec()
    );
    assert_eq!(
        get_cgi_param_value_naive(b"http://example.com?pp=18&place=moscow", b"place").unwrap(),
        b"moscow".to_vec()
    );
    assert_eq!(
        get_cgi_param_value_naive(b"http://example.com?pp=18&place=dubai&key=value", b"place")
            .unwrap(),
        b"dubai".to_vec()
    );
    assert_eq!(
        get_cgi_param_value_naive(b"http://example.com?pp=18&place=&text=lalala", b"place")
            .unwrap(),
        b"".to_vec()
    );
    assert_eq!(
        get_cgi_param_value_naive(b"http://example.com?pp=18&place=", b"place").unwrap(),
        b"".to_vec()
    );
    assert_eq!(get_cgi_param_value_naive(b"http://example.com?pp=18&xxxplace=", b"place"), None);
    assert_eq!(get_cgi_param_value_naive(b"http://example.com?pp=18&noparam=1", b"place"), None);
    assert_eq!(
        get_cgi_param_value_naive(b"search?pp=18&&text=place=jopa&place=dubai&sdfd", b"place")
            .unwrap(),
        b"dubai".to_vec()
    );
    assert_eq!(get_cgi_param_value_naive(b"", b"place"), None);
    assert_eq!(get_cgi_param_value_naive(b"", b""), None);
}

#[test]
fn host_port_resource_doc_cases() {
    let cases: Vec<(&[u8], &[u8], &[u8], &[u8])> = vec![
        (b"", b"", b"", b""),
        (b"http://", b"", b"", b""),
        (b"http://example.com", b"example.com", b"", b""),
        (b"http://:80", b"", b"80", b""),
        (b"http://example.com:80", b"example.com", b"80", b""),
        (b"http://example.com:80/", b"example.com", b"80", b""),
        (b"example.com", b"example.com", b"", b""),
    ];
    for (url, host, port, resource) in cases {
        let (h, p, r) = get_host_port_resource_from_url(url);
        assert_eq!(h, host.to_vec());
        assert_eq!(p, port.to_vec());
        assert_eq!(r, resource.to_vec());
    }
}

#[test]
fn stored_bullet_round_trip() {
    let b = BulletData {
        host: b"h".to_vec(),
        resource: b"r".to_vec(),
        place: b"p".to_vec(),
        wizards: b"w1,w2".to_vec(),
    };
    let stored = StoredBullet::from_data(&b);
    let back = stored.get_data();
    assert_eq!(back.host, b.host);
    assert_eq!(back.resource, b.resource);
    assert_eq!(back.place, b.place);
    assert_eq!(back.wizards, b.wizards);
}

#[test]
fn decimal_rendering() {
    assert_eq!(usize_to_decimal(0), b"0".to_vec());
    assert_eq!(usize_to_decimal(7), b"7".to_vec());
    assert_eq!(usize_to_decimal(10), b"10".to_vec());
    assert_eq!(usize_to_decimal(74), b"74".to_vec());
    assert_eq!(usize_to_decimal(12034), b"12034".to_vec());
}

#[test]
fn annotation_skips_empty_tags() {
    let b = BulletData {
        host: b"h".to_vec(),
        resource: b"r".to_vec(),
        place: b"msk".to_vec(),
        wizards: b",a,,b,".to_vec(),
    };
    let out = render_bullet(&b);
    // Request "GET /r HTTP/1.0..." is 56 bytes long.
    let mut expected_prefix: Vec<u8> = Vec::new();
    expected_prefix.extend_from_slice(b"56 msk|a|b\r\n");
    assert_eq!(&out[..expected_prefix.len()], &expected_prefix[..]);
}
