use gen_ammo::{
    make_record_from_plain_line, parse_log_line, parse_tab_separated_log_line,
    parse_tskv_log_line,
};

#[test]
fn test_parse_tab_separated_log_line() {
    {
        let rec = parse_tab_separated_log_line(b"");
        assert_eq!(rec.url, b"".to_vec());
        assert_eq!(rec.wizards, b"".to_vec());
    }
    {
        let rec = parse_tab_separated_log_line(b"zzz");
        assert_eq!(rec.url, b"".to_vec());
        assert_eq!(rec.wizards, b"".to_vec());
    }
    {
        let rec = parse_tab_separated_log_line(b"zzz\tbebebe");
        assert_eq!(rec.url, b"bebebe".to_vec());
        assert_eq!(rec.wizards, b"".to_vec());
    }
    {
        let rec = parse_tab_separated_log_line(b"\tbebebe\t");
        assert_eq!(rec.url, b"bebebe".to_vec());
        assert_eq!(rec.wizards, b"".to_vec());
    }
    {
        let line = b"[Tue Dec 13 06:28:45 2016]\thttp://example.com:17051/search?base=default.exp.pepe01ht.example.com\tundefined\t12\t\t517762881\t::1\t12\t0\t0\t0\t-1\twiz1,wiz2\tf738c8xxxxxxx1ac27ex0b6fbe9\t\t\t\t6\t5\t0\t1\t4\t3\tc2c4937cxxxxxxxxd82713088e401\t\t\t0\t14815997xxxxxxxxxxxx6fbe9/1\t9999999725766\t0\tNONE";
        let rec = parse_tab_separated_log_line(line);
        let needle: &[u8] = b"http://example.com:17051/search?base=default.exp.pepe01ht.example.com";
        assert_eq!(rec.url, needle.to_vec());
        assert_eq!(rec.wizards, b"wiz1,wiz2".to_vec());
    }
}

#[test]
fn test_parse_tskv_log_line() {
    let rec = parse_tskv_log_line(b"tskv\turl=http://bfg9000:5000/zomb/\twizards=1,2,3,4,5\tx=value");
    assert_eq!(rec.url, b"http://bfg9000:5000/zomb/".to_vec());
    assert_eq!(rec.wizards, b"1,2,3,4,5".to_vec());
}

#[test]
fn test_parse_log_line() {
    {
        let rec = parse_log_line(b"tskv\turl=http://bfg9000:5000/zomb/\twizards=1,2,3,4,5\tx=value");
        assert_eq!(rec.url, b"http://bfg9000:5000/zomb/".to_vec());
        assert_eq!(rec.wizards, b"1,2,3,4,5".to_vec());
    }
    {
        let rec = parse_log_line(b"tskv");
        assert_eq!(rec.url, b"".to_vec());
        assert_eq!(rec.wizards, b"".to_vec());
    }
    {
        let rec = parse_log_line(b"tskv\t");
        assert_eq!(rec.url, b"".to_vec());
        assert_eq!(rec.wizards, b"".to_vec());
    }
    {
        let rec = parse_log_line(b"");
        assert_eq!(rec.url, b"".to_vec());
        assert_eq!(rec.wizards, b"".to_vec());
    }
    {
        let rec = parse_tab_separated_log_line(b"zzz\tbebebe\t\t");
        assert_eq!(rec.url, b"bebebe".to_vec());
        assert_eq!(rec.wizards, b"".to_vec());
    }
}

#[test]
fn plain_line_record() {
    let rec = make_record_from_plain_line(b"http://example.com");
    assert_eq!(rec.url, b"http://example.com".to_vec());
    assert_eq!(rec.wizards, b"".to_vec());
}

#[test]
fn format_equivalence_same_record() {
    let url: &[u8] = b"http://example.com/search?place=msk";
    let tags: &[u8] = b"wiz1,wiz2";
    let plain = parse_log_line(url);
    let tskv = parse_log_line(b"tskv\turl=http://example.com/search?place=msk\twizards=wiz1,wiz2");
    let tab = parse_log_line(
        b"[ts]\thttp://example.com/search?place=msk\t\t\t\t\t\t\t\t\t\t\twiz1,wiz2",
    );
    assert_eq!(tskv.url, url.to_vec());
    assert_eq!(tskv.wizards, tags.to_vec());
    assert_eq!(tab.url, tskv.url);
    assert_eq!(tab.wizards, tskv.wizards);
    assert_eq!(plain.url, tskv.url);
    assert_eq!(plain.wizards, b"".to_vec());
}

#[test]
fn tskv_last_key_wins() {
    let rec = parse_tskv_log_line(b"tskv\turl=http://a\turl=http://b");
    assert_eq!(rec.url, b"http://b".to_vec());
}
