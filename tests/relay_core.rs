use cipher_chat::{
    blank, chat_line, text_frame_line, typing_line, CipherCodec, CipherError, ClientSession, ConnectionIds,
    ConnectionRegistry, Envelope, FrameKind, Received, TypingTracker, User, KEY_LEN, NONCE_LEN, TAG_LEN,
    TYPING_WINDOW_MS,
};

const SECRET: &[u8; 32] = b"an example very very secret key.";

fn codec(prefix: u64) -> CipherCodec {
    CipherCodec::new(SECRET.to_vec(), prefix)
}

#[test]
fn seal_then_open_gives_back_the_plaintext() {
    let mut a = codec(1);
    let b = codec(2);
    for text in ["", "hello", "{\"Chat\":{\"username\":\"A\",\"message\":\"hi\"}}", "\u{1f914} unicode"] {
        let frame = a.seal(text.as_bytes()).unwrap();
        assert_eq!(frame.len(), NONCE_LEN + text.len() + TAG_LEN);
        assert_eq!(b.open(&frame).unwrap(), text.as_bytes().to_vec());
        assert_eq!(a.open(&frame).unwrap(), text.as_bytes().to_vec());
    }
}

#[test]
fn sealed_frame_hides_the_plaintext() {
    let mut a = codec(7);
    let text = b"a fairly long plaintext that should not show up";
    let frame = a.seal(text).unwrap();
    assert_ne!(&frame[NONCE_LEN..NONCE_LEN + text.len()], &text[..]);
}

#[test]
fn flipping_any_bit_fails_authentication() {
    let mut a = codec(3);
    let frame = a.seal(b"tamper me").unwrap();
    for byte in 0..frame.len() {
        for bit in 0..8 {
            let mut bad = frame.clone();
            bad[byte] ^= 1 << bit;
            assert_eq!(a.open(&bad), Err(CipherError::AuthenticationError));
        }
    }
}

#[test]
fn every_seal_uses_a_fresh_nonce() {
    let mut a = codec(0x0102030405060708);
    let f1 = a.seal(b"same").unwrap();
    let f2 = a.seal(b"same").unwrap();
    assert_eq!(&f1[..NONCE_LEN], &[8, 7, 6, 5, 4, 3, 2, 1, 0, 0, 0, 0]);
    assert_eq!(&f2[..NONCE_LEN], &[8, 7, 6, 5, 4, 3, 2, 1, 1, 0, 0, 0]);
    assert_ne!(f1, f2);
}

#[test]
fn short_frames_fail_authentication() {
    let a = codec(0);
    assert_eq!(a.open(&[]), Err(CipherError::AuthenticationError));
    assert_eq!(a.open(&[0u8; NONCE_LEN + TAG_LEN - 1]), Err(CipherError::AuthenticationError));
}

#[test]
fn wrong_key_fails_authentication() {
    let mut a = codec(0);
    let frame = a.seal(b"secret").unwrap();
    let other = CipherCodec::new(vec![9u8; KEY_LEN], 0);
    assert_eq!(other.open(&frame), Err(CipherError::AuthenticationError));
}

#[test]
fn malformed_key_is_a_key_error() {
    let mut bad = CipherCodec::new(vec![1u8; 16], 0);
    assert_eq!(bad.seal(b"x"), Err(CipherError::KeyError));
    assert_eq!(bad.open(&[0u8; 40]), Err(CipherError::KeyError));
    let mut good = codec(0);
    let frame = good.seal(b"x").unwrap();
    assert_eq!(bad.open(&frame), Err(CipherError::KeyError));
}

#[test]
fn registry_register_unregister_snapshot() {
    let mut reg: ConnectionRegistry<String> = ConnectionRegistry::new();
    assert_eq!(reg.len(), 0);
    reg.register(1, "one".to_string());
    reg.register(2, "two".to_string());
    reg.register(3, "three".to_string());
    assert_eq!(reg.len(), 3);
    assert!(reg.contains(2));
    reg.unregister(2);
    reg.unregister(2);
    reg.unregister(42);
    assert!(!reg.contains(2));
    let mut snap = reg.snapshot();
    snap.sort();
    assert_eq!(snap, vec![(1, "one".to_string()), (3, "three".to_string())]);
}

#[test]
fn broadcast_skips_the_sender() {
    let mut reg: ConnectionRegistry<u32> = ConnectionRegistry::new();
    reg.register(1, 10);
    reg.register(2, 20);
    reg.register(3, 30);
    let mut targets = reg.relay_targets(1, FrameKind::Binary);
    targets.sort();
    assert_eq!(targets, vec![(2, 20), (3, 30)]);
    let mut targets = reg.relay_targets(3, FrameKind::Text);
    targets.sort();
    assert_eq!(targets, vec![(1, 10), (2, 20)]);
    assert!(reg.relay_targets(1, FrameKind::Control).is_empty());
}

#[test]
fn registry_keeps_the_last_call_per_id() {
    let mut reg: ConnectionRegistry<u32> = ConnectionRegistry::new();
    reg.register(1, 10);
    reg.register(2, 20);
    reg.unregister(1);
    reg.register(3, 30);
    reg.register(1, 11);
    reg.unregister(3);
    let mut snap = reg.snapshot();
    snap.sort();
    assert_eq!(snap, vec![(1, 11), (2, 20)]);
}

#[test]
fn connection_ids_increase() {
    let mut ids = ConnectionIds::new();
    assert_eq!(ids.allocate(), Some(0));
    assert_eq!(ids.allocate(), Some(1));
    assert_eq!(ids.allocate(), Some(2));
}

#[test]
fn typing_expires_after_the_window() {
    let t = 10_000u64;
    let eps = 1u64;
    let mut tr = TypingTracker::new();
    tr.set_typing("alice".to_string(), true, t);
    assert_eq!(tr.active_users(t + TYPING_WINDOW_MS - eps, TYPING_WINDOW_MS), vec!["alice".to_string()]);
    assert!(tr.active_users(t + TYPING_WINDOW_MS + eps, TYPING_WINDOW_MS).is_empty());
    // pruned: going back in time does not bring alice back
    assert!(tr.active_users(t, TYPING_WINDOW_MS).is_empty());
}

#[test]
fn typing_stop_removes_user() {
    let mut tr = TypingTracker::new();
    tr.set_typing("alice".to_string(), true, 5);
    tr.set_typing("bob".to_string(), true, 6);
    tr.set_typing("alice".to_string(), false, 7);
    assert_eq!(tr.active_users(8, TYPING_WINDOW_MS), vec!["bob".to_string()]);
    tr.set_typing("bob".to_string(), true, 100);
    assert_eq!(tr.active_users(2099, TYPING_WINDOW_MS), vec!["bob".to_string()]);
    assert!(tr.active_users(2100, TYPING_WINDOW_MS).is_empty());
}

#[test]
fn display_lines() {
    assert_eq!(chat_line("A", "hi"), "A: hi");
    assert_eq!(text_frame_line("hello"), "Received (Text): hello");
    assert_eq!(typing_line(&vec![]), None);
    assert_eq!(typing_line(&vec!["alice".to_string()]), Some("\u{1f914} alice is typing...".to_string()));
    assert_eq!(
        typing_line(&vec!["alice".to_string(), "bob".to_string(), "carol".to_string()]),
        Some("\u{1f914} alice, bob, carol are typing...".to_string())
    );
}

#[test]
fn blank_input_is_not_sent() {
    let session = ClientSession::new("A".to_string());
    assert!(blank(""));
    assert!(blank(" \t\n\u{3000}"));
    assert!(!blank(" x "));
    assert_eq!(session.outgoing("   "), None);
    assert_eq!(session.outgoing(""), None);
    assert_eq!(
        session.outgoing(" hi "),
        Some(Envelope::Chat { username: "A".to_string(), message: " hi ".to_string() })
    );
    assert_eq!(session.username(), "A");
}

#[test]
fn session_shows_typing_and_text() {
    let mut s = ClientSession::new("B".to_string());
    let typing = |u: &str, on: bool| Received::Envelope(Envelope::Typing { username: u.to_string(), is_typing: on });
    assert_eq!(s.receive(typing("alice", true), 0), Some("\u{1f914} alice is typing...".to_string()));
    let line = s.receive(typing("bob", true), 500).unwrap();
    assert!(line == "\u{1f914} alice, bob are typing..." || line == "\u{1f914} bob, alice are typing...");
    assert_eq!(s.receive(typing("bob", false), 600), Some("\u{1f914} alice is typing...".to_string()));
    assert_eq!(s.receive(typing("alice", false), 700), None);
    assert_eq!(s.receive(Received::Text("note".to_string()), 800), Some("Received (Text): note".to_string()));
    assert_eq!(s.receive(Received::Other, 900), None);
}

#[test]
fn bad_frames_are_dropped_and_processing_continues() {
    let mut sender = codec(1);
    let receiver = codec(2);
    let mut session = ClientSession::new("B".to_string());
    assert!(serde_json::from_str::<serde_json::Value>("not json").is_err());
    assert_eq!(receiver.open(b"not json at all, not sealed"), Err(CipherError::AuthenticationError));
    let frame = sender.seal(b"A: hi").unwrap();
    assert_eq!(receiver.open(&frame).unwrap(), b"A: hi".to_vec());
    let shown = session.receive(
        Received::Envelope(Envelope::Chat { username: "A".to_string(), message: "hi".to_string() }),
        0,
    );
    assert_eq!(shown, Some("A: hi".to_string()));
}

fn decode_chat(bytes: &[u8]) -> Envelope {
    let v: serde_json::Value = serde_json::from_slice(bytes).unwrap();
    let chat = &v["Chat"];
    Envelope::Chat {
        username: chat["username"].as_str().unwrap().to_string(),
        message: chat["message"].as_str().unwrap().to_string(),
    }
}

#[test]
fn end_to_end_chat_reaches_other_peers() {
    let mut reg: ConnectionRegistry<u32> = ConnectionRegistry::new();
    reg.register(1, 1);
    reg.register(2, 2);
    reg.register(3, 3);
    let session_a = ClientSession::new("A".to_string());
    let mut codec_a = codec(11);
    let env = session_a.outgoing("hi").unwrap();
    let payload = match env {
        Envelope::Chat { username, message } => {
            format!("{{\"Chat\":{{\"username\":{:?},\"message\":{:?}}}}}", username, message)
        }
        _ => unreachable!(),
    };
    let frame = codec_a.seal(payload.as_bytes()).unwrap();
    let targets = reg.relay_targets(1, FrameKind::Binary);
    assert_eq!(targets.len(), 2);
    for (peer, _) in targets {
        assert_ne!(peer, 1);
        let codec_peer = codec(100 + peer);
        let mut session = ClientSession::new(format!("peer{}", peer));
        let plain = codec_peer.open(&frame).unwrap();
        let shown = session.receive(Received::Envelope(decode_chat(&plain)), 0);
        assert_eq!(shown, Some("A: hi".to_string()));
    }
}

#[test]
fn user_accessors() {
    let u = User::new(Some("ann".to_string()), Some(30), "id-7".to_string());
    assert_eq!(u.get_name(), Some("ann"));
    assert_eq!(u.get_age(), Some(30));
    assert_eq!(u.get_id_num(), "id-7");
    let v = User::new(None, None, String::new());
    assert_eq!(v.get_name(), None);
    assert_eq!(v.get_age(), None);
}
