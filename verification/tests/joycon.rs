use switch_drivers::input::joycon::{
    Action, DISCONNECT, Link, Pair, Parser, Report, Side, Stage, Viewer, WAKE_HANDSHAKE,
    input_report,
};

fn packet(cmd: u8, sub: u8, status: u8, payload: &[u8]) -> Vec<u8> {
    let size = (7 + payload.len()) as u16;
    let mut p = vec![
        0x19,
        0x81,
        3,
        size as u8,
        (size >> 8) as u8,
        cmd,
        sub,
        payload.len() as u8,
        0,
        status,
        0,
        0,
    ];
    p.extend_from_slice(payload);
    p
}

#[test]
fn partial_stream_multiple_packets_and_corrupt_size_resync() {
    let info = packet(0x94, 1, 0, &[1, 1, 2, 3, 4, 5, 6]);
    let ack = packet(0x94, 0x20, 0, &[]);
    let mut parser = Parser::default();
    assert!(parser.feed(&[0xa1, 0x19, 0x81, 3, 0xff, 0xff]).is_empty());
    assert!(parser.feed(&info[..8]).is_empty());
    let mut tail = info[8..].to_vec();
    tail.extend_from_slice(&ack);
    assert_eq!(parser.feed(&tail), vec![info.clone(), ack]);
    let mut corrupt = info.clone();
    corrupt[3] = 0xff;
    corrupt[4] = 0xff;
    corrupt.extend_from_slice(&info);
    assert_eq!(parser.feed(&corrupt), vec![info]);
}

#[test]
fn initialization_ack_order_baud_and_wrong_side() {
    let mut link = Link::new(Side::Left);
    assert_eq!(link.next(0), Some(Action::Start));
    assert_eq!(link.next(3), None);
    assert_eq!(link.next(4), None);
    assert_eq!(link.next(10), Some(Action::Send(WAKE_HANDSHAKE)));
    link.receive(&packet(0x94, 0x12, 0, &[]), 5);
    assert_eq!(link.stage, Stage::Handshake);
    for (cmd, sub, status, data) in [
        (0xa5, 0, 0, &[][..]),
        (0x94, 1, 0, &[1, 1, 2, 3, 4, 5, 6][..]),
        (0x94, 0x20, 0, &[][..]),
    ] {
        link.receive(&packet(cmd, sub, status, data), 10);
    }
    assert_eq!(link.next(10), Some(Action::ConfigureFast));
    assert_eq!(link.next(10), Some(Action::Send(DISCONNECT)));
    for (sub, status) in [(0x11, 15), (0x10, 0), (0x12, 0)] {
        link.receive(&packet(0x94, sub, status, &[]), 20);
    }
    assert_eq!(link.stage, Stage::Ready);
    assert!(!link.stale(269));
    assert!(link.stale(270));
    let mut right = Link::new(Side::Right);
    right.next(0);
    right.receive(&packet(0xa5, 0, 0, &[]), 1);
    right.receive(&packet(0x94, 1, 0, &[1, 1, 2, 3, 4, 5, 6]), 2);
    assert_eq!(right.stage, Stage::Backoff);
}

#[test]
fn no_replies_back_off_and_disconnect_clears_initialization() {
    let mut link = Link::new(Side::Left);
    link.next(0);
    assert_eq!(link.next(10), Some(Action::Send(WAKE_HANDSHAKE)));
    assert_eq!(link.next(110), None);
    assert_eq!(link.stage, Stage::Backoff);
    assert_eq!(link.next(500), None);
    link.detach();
    assert_eq!(link.stage, Stage::Detached);
}

#[test]
fn reports_preserve_other_half_and_unplug_only_releases_owner() {
    let mut hid = [0; 12];
    hid[0] = 0x30;
    hid[3] = 8;
    hid[5] = 0x42;
    hid[6..9].copy_from_slice(&[0x23, 0x61, 0x45]);
    hid[9..12].copy_from_slice(&[0x34, 0x72, 0x56]);
    let p = packet(0x92, 0, 0, &hid);
    let l = input_report(Side::Left, &p).unwrap();
    let r = input_report(Side::Right, &p).unwrap();
    assert_eq!((l.x, l.y), (0x123, 4095 - 0x456));
    assert_eq!((r.x, r.y), (0x234, 4095 - 0x567));
    let mut pair = Pair::default();
    pair.set(Side::Left, l);
    pair.set(Side::Right, r);
    assert_eq!(pair.buttons(), 0x420008);
    assert_eq!(pair.hat(), (0, -1));
    pair.release(Side::Right);
    assert_eq!(pair.buttons(), 0x420000);
    assert_eq!(pair.halves[0], l);
}

#[test]
fn stick_noise_is_quiet_but_button_edges_and_accumulated_motion_publish() {
    let origin = Report {
        buttons: 0,
        x: 2000,
        y: 2100,
    };
    assert!(
        !Report {
            x: 2008,
            y: 2092,
            ..origin
        }
        .differs_from(origin)
    );
    assert!(Report { x: 2009, ..origin }.differs_from(origin));
    assert!(
        Report {
            buttons: 1,
            ..origin
        }
        .differs_from(origin)
    );
}

#[test]
fn captured_official_handshake_and_mac_reply_reach_baud_switch() {
    // Status is byte 9; nonzero payload and header check bytes are not status.
    let handshake = [0x19, 0x81, 3, 7, 0, 0xa5, 2, 2, 0x7d, 0, 0, 0x64];
    let info = [
        0x19, 0x81, 3, 15, 0, 0x94, 1, 8, 0, 0, 0xfa, 0xe8, 1, 0x31, 0x67, 0x9c, 0x8a, 0xbb, 0x7c,
        0,
    ];
    let baud = [0x19, 0x81, 3, 7, 0, 0x94, 0x20, 0, 0, 0, 0, 0xa8];
    let mut parser = Parser::default();
    let mut link = Link::new(Side::Left);
    assert_eq!(link.next(0), Some(Action::Start));
    for (time, input) in [(4, &handshake[..]), (6, &info[..]), (8, &baud[..])] {
        for reply in parser.feed(input) {
            link.receive(&reply, time);
        }
    }
    assert_eq!(link.stage, Stage::Disconnect);
    assert_eq!(link.next(8), Some(Action::ConfigureFast));
    assert_eq!(&WAKE_HANDSHAKE.bytes()[..4], &[0xa1, 0xa2, 0xa3, 0xa4]);
    assert_eq!(WAKE_HANDSHAKE.bytes().len(), 16);
}

#[test]
fn feeding_byte_by_byte_shows_the_same_packets() {
    let stream: Vec<u8> = [
        packet(0x94, 1, 0, &[1, 1, 2, 3, 4, 5, 6]),
        vec![0x19, 0x81, 0x19],
        packet(0x94, 0x20, 0, &[9]),
    ]
    .concat();
    let mut whole = Parser::default();
    let expected = whole.feed(&stream);
    assert_eq!(expected.len(), 2);
    let mut single = Parser::default();
    let mut shown: Vec<Vec<u8>> = Vec::new();
    for byte in &stream {
        single.feed_each(&[*byte], |p: &[u8]| shown.push(p.to_vec()));
    }
    assert_eq!(shown, expected);
    whole.feed(&stream[..5]);
    whole.clear();
    assert!(whole.feed(&stream[5..19]).is_empty());
}

#[test]
fn a_silent_link_fails_after_its_attempts() {
    let mut link = Link::new(Side::Right);
    let mut now = 0;
    let mut sent = 0;
    while link.stage != Stage::Backoff {
        if let Some(Action::Send(_)) = link.next(now) {
            sent += 1;
        }
        now += 1;
    }
    assert_eq!(sent, 1);
    assert_eq!(link.next_deadline_ms(), now - 1 + 1000);
    link.fail(5000);
    assert_eq!(link.due, 6000);
}

#[test]
fn sides_have_their_own_buttons_and_places() {
    assert_eq!(Side::Left.index(), 0);
    assert_eq!(Side::Right.index(), 1);
    assert_eq!(Side::Left.button_mask() & Side::Right.button_mask(), 0);
    assert!(input_report(Side::Left, &packet(0x94, 0, 0, &[0; 12])).is_none());
    assert!(input_report(Side::Left, &[]).is_none());
}

#[test]
fn a_detached_link_starts_until_the_end_of_time() {
    for now in [0, 1, u64::MAX - 1000, u64::MAX - 10] {
        let mut link = Link::new(Side::Left);
        link.fail(5);
        link.detach();
        assert_eq!(link.next(now), Some(Action::Start));
        assert_eq!(link.due, now + 10);
        assert_eq!(link.next(now), None);
    }
}

#[test]
fn every_packet_of_a_burst_is_shown_in_order() {
    let first = packet(0x94, 1, 0, &[1, 1, 2, 3, 4, 5, 6]);
    let second = packet(0x94, 0x20, 0, &[9]);
    let stream = [vec![0x19u8], first.clone(), vec![7, 0x19, 0x81], second.clone()].concat();
    let mut parser = Parser::default();
    let mut shown: Vec<Vec<u8>> = Vec::new();
    parser.feed_each(&stream, |p: &[u8]| shown.push(p.to_vec()));
    assert_eq!(shown, vec![first, second]);
}

#[test]
fn a_viewer_sees_the_packets_of_all_bursts_once() {
    let first = packet(0x94, 1, 0, &[1, 1, 2, 3, 4, 5, 6]);
    let second = packet(0x94, 0x20, 0, &[9]);
    let stream = [first.clone(), vec![0x19u8, 7], second.clone(), vec![0x19, 0x81]].concat();
    let mut shown: Vec<Vec<u8>> = Vec::new();
    let mut parser = Parser::default();
    let mut viewer = Viewer::new(|p: &[u8]| shown.push(p.to_vec()));
    let (early, late) = stream.split_at(first.len() + 4);
    parser.feed_viewer(early, &mut viewer);
    parser.feed_viewer(late, &mut viewer);
    viewer.show(&[1, 2, 3]);
    drop(viewer);
    assert_eq!(shown, vec![first, second, vec![1, 2, 3]]);
    assert_eq!(parser.bytes, vec![0x19, 0x81]);
}
