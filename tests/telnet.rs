use pdp10_proxy::telnet::{
    TelnetHandler, DO, DONT, IAC, OPT_BINARY, OPT_ECHO, OPT_LINEMODE, OPT_NAWS, OPT_SGA, SB, SE,
    WILL, WONT,
};

#[test]
fn test_plain_data() {
    let mut handler = TelnetHandler::new();
    let (output, responses) = handler.process(b"hello");
    assert_eq!(output, b"hello");
    assert!(responses.is_empty());
}

#[test]
fn test_will_echo() {
    let mut handler = TelnetHandler::new();
    let (output, responses) = handler.process(&[IAC, WILL, OPT_ECHO]);
    assert!(output.is_empty());
    assert_eq!(responses, &[IAC, DO, OPT_ECHO]);
}

#[test]
fn test_mixed_data_and_iac() {
    let mut handler = TelnetHandler::new();
    let input = [b'A', IAC, WILL, OPT_SGA, b'B'];
    let (output, responses) = handler.process(&input);
    assert_eq!(output, b"AB");
    assert_eq!(responses, &[IAC, DO, OPT_SGA]);
}

#[test]
fn test_escaped_iac() {
    let mut handler = TelnetHandler::new();
    let (output, _) = handler.process(&[IAC, IAC]);
    assert_eq!(output, &[255]);
}

#[test]
fn plain_bytes_pass_unchanged() {
    let mut handler = TelnetHandler::new();
    let input: Vec<u8> = (0u8..255).collect();
    let (output, responses) = handler.process(&input);
    assert_eq!(output, input);
    assert!(responses.is_empty());
}

#[test]
fn empty_input_gives_nothing() {
    let mut handler = TelnetHandler::new();
    let (output, responses) = handler.process(&[]);
    assert!(output.is_empty());
    assert!(responses.is_empty());
}

#[test]
fn build_naws_exact_bytes() {
    assert_eq!(
        TelnetHandler::build_naws(80, 24),
        vec![IAC, SB, OPT_NAWS, 0, 80, 0, 24, IAC, SE]
    );
    assert_eq!(
        TelnetHandler::build_naws(0x1234, 0x0102),
        vec![IAC, SB, OPT_NAWS, 0x12, 0x34, 0x01, 0x02, IAC, SE]
    );
}

#[test]
fn will_naws_twice_reports_once() {
    let mut handler = TelnetHandler::new();
    let (out1, resp1) = handler.process(&[IAC, WILL, OPT_NAWS]);
    let (out2, resp2) = handler.process(&[IAC, WILL, OPT_NAWS]);
    assert!(out1.is_empty() && out2.is_empty());
    let mut expected = vec![IAC, DO, OPT_NAWS];
    expected.extend(TelnetHandler::build_naws(80, 24));
    assert_eq!(resp1, expected);
    assert_eq!(resp2, vec![IAC, DO, OPT_NAWS]);
}

#[test]
fn do_naws_after_will_naws_shares_flag() {
    let mut handler = TelnetHandler::new();
    let (_, resp1) = handler.process(&[IAC, DO, OPT_NAWS]);
    let mut expected = vec![IAC, WILL, OPT_NAWS];
    expected.extend(TelnetHandler::build_naws(80, 24));
    assert_eq!(resp1, expected);
    let (_, resp2) = handler.process(&[IAC, WILL, OPT_NAWS]);
    assert_eq!(resp2, vec![IAC, DO, OPT_NAWS]);
}

#[test]
fn negotiation_policy_replies() {
    let mut handler = TelnetHandler::new();
    let (_, r) = handler.process(&[IAC, WILL, OPT_BINARY]);
    assert_eq!(r, vec![IAC, DO, OPT_BINARY]);
    let (_, r) = handler.process(&[IAC, WILL, OPT_LINEMODE]);
    assert_eq!(r, vec![IAC, DONT, OPT_LINEMODE]);
    let (_, r) = handler.process(&[IAC, WONT, OPT_ECHO]);
    assert_eq!(r, vec![IAC, DONT, OPT_ECHO]);
    let (_, r) = handler.process(&[IAC, DO, OPT_BINARY]);
    assert_eq!(r, vec![IAC, WILL, OPT_BINARY]);
    let (_, r) = handler.process(&[IAC, DO, OPT_ECHO]);
    assert_eq!(r, vec![IAC, WONT, OPT_ECHO]);
    let (_, r) = handler.process(&[IAC, DONT, OPT_SGA]);
    assert_eq!(r, vec![IAC, WONT, OPT_SGA]);
}

#[test]
fn unknown_command_and_bare_se_are_dropped() {
    let mut handler = TelnetHandler::new();
    let (out, resp) = handler.process(&[b'x', IAC, 241, b'y', IAC, SE, b'z']);
    assert_eq!(out, b"xyz");
    assert!(resp.is_empty());
}

#[test]
fn command_split_across_calls() {
    let mut handler = TelnetHandler::new();
    let (out1, resp1) = handler.process(&[b'a', IAC]);
    let (out2, resp2) = handler.process(&[WILL]);
    let (out3, resp3) = handler.process(&[OPT_ECHO, b'b']);
    assert_eq!(out1, b"a");
    assert!(resp1.is_empty() && out2.is_empty() && resp2.is_empty());
    assert_eq!(out3, b"b");
    assert_eq!(resp3, vec![IAC, DO, OPT_ECHO]);
}

#[test]
fn subnegotiation_hidden_in_any_chunking() {
    let input: Vec<u8> = vec![
        b'a', IAC, SB, 24, b's', b'e', b'c', IAC, IAC, b'r', IAC, SE, b'b',
    ];
    for cut1 in 0..=input.len() {
        for cut2 in cut1..=input.len() {
            let mut handler = TelnetHandler::new();
            let mut out = Vec::new();
            let mut resp = Vec::new();
            for chunk in [&input[..cut1], &input[cut1..cut2], &input[cut2..]] {
                let (o, r) = handler.process(chunk);
                out.extend(o);
                resp.extend(r);
            }
            assert_eq!(out, b"ab");
            assert!(resp.is_empty());
        }
    }
}
