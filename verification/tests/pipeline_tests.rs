use gen_ammo::{
    make_bullet_data_from_log_record, make_processor, parse_log_line, process_log_line,
    render_bullet, run_pipeline, Algo, BulletData, Chained, GenericReader, MethodS, ProcError,
    Processor, ReserviorSampling, RoundRobin, WriteAmmo,
};

fn bullet_for(url: &[u8]) -> BulletData {
    make_bullet_data_from_log_record(parse_log_line(url))
}

#[test]
fn end_to_end_tskv_scenario() {
    let line = b"tskv\turl=http://example.com/search?place=msk\twizards=a,b\tx=v";
    let rec = parse_log_line(line);
    let bullet = make_bullet_data_from_log_record(rec);
    assert_eq!(bullet.resource, b"search?place=msk".to_vec());
    assert_eq!(bullet.host, b"example.com".to_vec());
    assert_eq!(bullet.place, b"msk".to_vec());
    assert_eq!(bullet.wizards, b"a,b".to_vec());
    let out = render_bullet(&bullet);
    // The embedded request is 71 bytes long.
    let prefix: &[u8] = b"71 msk|a|b\r\n";
    assert_eq!(&out[..prefix.len()], prefix);
}

#[test]
fn end_to_end_plain_scenario() {
    let rec = parse_log_line(b"http://x.com");
    let bullet = make_bullet_data_from_log_record(rec);
    assert_eq!(bullet.resource, b"".to_vec());
    assert_eq!(bullet.host, b"x.com".to_vec());
    assert_eq!(bullet.place, b"".to_vec());
    assert_eq!(bullet.wizards, b"".to_vec());
    let out = render_bullet(&bullet);
    // The annotation is empty: the length, a space, and the record breaks.
    let prefix: &[u8] = b"55 \r\nGET / HTTP/1.0\r\n";
    assert_eq!(&out[..prefix.len()], prefix);
}

#[test]
fn round_robin_groups_by_position() {
    let sinks = vec![WriteAmmo::new(), WriteAmmo::new(), WriteAmmo::new()];
    let mut rr = RoundRobin::new(sinks);
    let urls: Vec<Vec<u8>> = (0..7u8).map(|i| {
        let mut u = b"http://host/".to_vec();
        u.push(b'0' + i);
        u
    }).collect();
    for u in &urls {
        rr.process(&bullet_for(u)).unwrap();
    }
    rr.finish().unwrap();
    let expected = |idxs: &[usize]| {
        let mut v: Vec<u8> = Vec::new();
        for &i in idxs {
            v.extend_from_slice(&render_bullet(&bullet_for(&urls[i])));
        }
        v
    };
    assert_eq!(rr.subprocessors[0].out, expected(&[0, 3, 6]));
    assert_eq!(rr.subprocessors[1].out, expected(&[1, 4]));
    assert_eq!(rr.subprocessors[2].out, expected(&[2, 5]));
}

#[test]
fn direct_run_fans_out_in_order() {
    let c = Chained {
        sources: vec![GenericReader {
            data: b"http://a/1\nhttp://a/2\nhttp://a/3\nhttp://a/4\n".to_vec(),
        }],
    };
    let outs = run_pipeline(&c, Algo::DoNotRandomize, None, 2).unwrap();
    assert_eq!(outs.len(), 2);
    let mut sink0: Vec<u8> = Vec::new();
    sink0.extend_from_slice(&render_bullet(&bullet_for(b"http://a/1")));
    sink0.extend_from_slice(&render_bullet(&bullet_for(b"http://a/3")));
    let mut sink1: Vec<u8> = Vec::new();
    sink1.extend_from_slice(&render_bullet(&bullet_for(b"http://a/2")));
    sink1.extend_from_slice(&render_bullet(&bullet_for(b"http://a/4")));
    assert_eq!(outs[0], sink0);
    assert_eq!(outs[1], sink1);
}

#[test]
fn reservoir_keeps_exactly_capacity() {
    let c = Chained {
        sources: vec![GenericReader { data: b"http://x.com\n".repeat(5) }],
    };
    let outs = run_pipeline(&c, Algo::ReserviorSampling, Some(3), 1).unwrap();
    assert_eq!(outs.len(), 1);
    let one = render_bullet(&bullet_for(b"http://x.com"));
    let expected = one.repeat(3);
    assert_eq!(outs[0], expected);
}

#[test]
fn reservoir_shortfall_is_logic_error() {
    let c = Chained {
        sources: vec![GenericReader { data: b"http://x.com\nhttp://y.com\n".to_vec() }],
    };
    let err = run_pipeline(&c, Algo::ReserviorSampling, Some(5), 1).unwrap_err();
    match err {
        ProcError::Logic { seen, required } => {
            assert_eq!(seen, 2);
            assert_eq!(required, 5);
        },
        _ => panic!("expected a logic error"),
    }
}

#[test]
fn method_s_selects_exactly_target() {
    let c = Chained {
        sources: vec![GenericReader { data: b"http://x.com\n".repeat(6) }],
    };
    let outs = run_pipeline(&c, Algo::MethodS, Some(4), 1).unwrap();
    assert_eq!(outs.len(), 1);
    let one = render_bullet(&bullet_for(b"http://x.com"));
    assert_eq!(outs[0], one.repeat(4));
}

#[test]
fn process_log_line_feeds_direct_chain() {
    let rr = RoundRobin::new(vec![WriteAmmo::new()]);
    let mut p = make_processor(Algo::DoNotRandomize, None, 0, rr);
    process_log_line(&mut p, b"http://x.com").unwrap();
    match p {
        Processor::Direct(rr) => {
            assert_eq!(rr.subprocessors[0].out, render_bullet(&bullet_for(b"http://x.com")));
        }
        _ => panic!("expected the direct chain"),
    }
}

#[test]
fn reservoir_forwards_buffer_in_order() {
    let mut r = ReserviorSampling::new(2, RoundRobin::new(vec![WriteAmmo::new()]));
    r.process(&bullet_for(b"http://a/1")).unwrap();
    r.process(&bullet_for(b"http://a/2")).unwrap();
    r.finish().unwrap();
    let mut expected: Vec<u8> = Vec::new();
    expected.extend_from_slice(&render_bullet(&bullet_for(b"http://a/1")));
    expected.extend_from_slice(&render_bullet(&bullet_for(b"http://a/2")));
    assert_eq!(r.subprocessor.subprocessors[0].out, expected);
}

#[test]
fn method_s_forced_selection_keeps_order() {
    // With the target equal to the total every draw is a forced selection,
    // so the run is deterministic and order-preserving.
    let mut m = MethodS::new(3, 3, RoundRobin::new(vec![WriteAmmo::new()]));
    m.process(&bullet_for(b"http://a/1")).unwrap();
    m.process(&bullet_for(b"http://a/2")).unwrap();
    m.process(&bullet_for(b"http://a/3")).unwrap();
    m.finish().unwrap();
    let mut expected: Vec<u8> = Vec::new();
    expected.extend_from_slice(&render_bullet(&bullet_for(b"http://a/1")));
    expected.extend_from_slice(&render_bullet(&bullet_for(b"http://a/2")));
    expected.extend_from_slice(&render_bullet(&bullet_for(b"http://a/3")));
    assert_eq!(m.subprocessor.subprocessors[0].out, expected);
}

#[test]
fn reservoir_sampling_is_roughly_uniform() {
    // Capacity 2 over 5 items: each item should stay with probability 2/5.
    // The margin is wide enough that a correct implementation practically
    // never trips it.
    let trials = 20000;
    let mut hits = 0usize;
    for _ in 0..trials {
        let mut r = ReserviorSampling::new(2, RoundRobin::new(vec![WriteAmmo::new()]));
        for i in 0..5u8 {
            let mut u = b"http://h/".to_vec();
            u.push(b'0' + i);
            r.process(&bullet_for(&u)).unwrap();
        }
        if r.selected.iter().any(|s| s.resource == b"0".to_vec()) {
            hits += 1;
        }
    }
    let expected = trials * 2 / 5;
    assert!(hits > expected - 1000 && hits < expected + 1000);
}
