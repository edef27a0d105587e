use pdp10_proxy::bridge::{
    on_front_frame, route, target_name, BackAction, FrontAction, FrontFrame, Relay, RouteError,
};
use pdp10_proxy::target::{Target, TargetRegistry, TargetType};
use pdp10_proxy::telnet::{DO, IAC, OPT_ECHO, WILL};

fn registry() -> TargetRegistry {
    let mut reg = TargetRegistry::new();
    reg.add(Target::parse("console:telnet:localhost:1025").unwrap());
    reg.add(Target::parse("tv11:raw:localhost:11100").unwrap());
    reg
}

#[test]
fn target_name_from_path() {
    assert_eq!(target_name("/ws/console"), Some("console".to_string()));
    assert_eq!(target_name("/ws/"), Some(String::new()));
    assert_eq!(target_name("/ws"), None);
    assert_eq!(target_name("/wx/console"), None);
    assert_eq!(target_name("ws/console"), None);
    assert_eq!(target_name(""), None);
}

#[test]
fn route_resolves_and_rejects() {
    let reg = registry();
    let t = route(&reg, "/ws/tv11").unwrap();
    assert_eq!(t.target_type, TargetType::Raw);
    assert_eq!(t.address, "localhost:11100");
    assert!(matches!(route(&reg, "/other/tv11"), Err(RouteError::InvalidPath)));
    assert!(matches!(route(&reg, "/ws/nothere"), Err(RouteError::UnknownTarget)));
    assert!(matches!(route(&reg, "/ws/TV11"), Err(RouteError::UnknownTarget)));
}

#[test]
fn front_frames() {
    assert!(matches!(on_front_frame(Some(FrontFrame::Binary(vec![1, 2]))), FrontAction::Write(d) if d == vec![1, 2]));
    assert!(matches!(on_front_frame(Some(FrontFrame::Close)), FrontAction::Finish));
    assert!(matches!(on_front_frame(Some(FrontFrame::Other)), FrontAction::Skip));
    assert!(matches!(on_front_frame(None), FrontAction::Finish));
}

#[test]
fn passthrough_delivers_all_bytes_in_any_chunking() {
    let data: Vec<u8> = (0..=255u8).chain(0..=255u8).collect();
    for size in [1usize, 7, 255, 512] {
        let mut relay = Relay::new(TargetType::Raw);
        let mut received = Vec::new();
        let mut frames = 0;
        for chunk in data.chunks(size) {
            match relay.on_backend_data(chunk) {
                BackAction::Forward { reply, frame } => {
                    assert!(reply.is_none());
                    let f = frame.unwrap();
                    assert_eq!(f, chunk);
                    received.extend(f);
                    frames += 1;
                }
                BackAction::Finish => panic!("unexpected end"),
            }
        }
        assert!(frames >= 1);
        assert_eq!(received, data);
        assert!(matches!(relay.on_backend_data(&[]), BackAction::Finish));
    }
}

#[test]
fn telnet_relay_splits_reply_and_data() {
    let mut relay = Relay::new(TargetType::Telnet);
    match relay.on_backend_data(&[b'h', IAC, WILL, OPT_ECHO, b'i']) {
        BackAction::Forward { reply, frame } => {
            assert_eq!(reply, Some(vec![IAC, DO, OPT_ECHO]));
            assert_eq!(frame, Some(b"hi".to_vec()));
        }
        BackAction::Finish => panic!("unexpected end"),
    }
    match relay.on_backend_data(&[IAC]) {
        BackAction::Forward { reply, frame } => {
            assert!(reply.is_none());
            assert!(frame.is_none());
        }
        BackAction::Finish => panic!("unexpected end"),
    }
    match relay.on_backend_data(&[IAC, b'z']) {
        BackAction::Forward { reply, frame } => {
            assert!(reply.is_none());
            assert_eq!(frame, Some(vec![255, b'z']));
        }
        BackAction::Finish => panic!("unexpected end"),
    }
    assert!(matches!(relay.on_backend_data(&[]), BackAction::Finish));
}

#[test]
fn route_error_messages() {
    assert!(RouteError::InvalidPath.message().contains("invalid path"));
    assert!(RouteError::UnknownTarget.message().contains("unknown target"));
}
