use rwshell::args::Args;
use rwshell::client::TtyClient;
use rwshell::error::RwShellError;
use rwshell::lifecycle::{exit_code_for, ShutdownReason};
use rwshell::pty::{NilPty, PtyHandler};
use rwshell::server::{new_session_id, RwShellServer};
use rwshell::size::{initial_size, is_valid_terminal_size};
use rwshell::text::{
    child_env, host_port_bytes, is_normal_disconnect, session_page_path, session_url,
    session_ws_path, trim_trailing_slashes, ws_path_of, ws_url_bytes,
};

fn args(uuid: bool, readonly: bool, headless: bool) -> Args {
    Args {
        command: "bash".to_string(),
        args: String::new(),
        listen: "localhost:8000".to_string(),
        version: false,
        readonly,
        headless,
        headless_cols: 80,
        headless_rows: 25,
        uuid,
        verbose: false,
    }
}

#[test]
fn size_validation_boundaries() {
    assert!(is_valid_terminal_size(10, 5));
    assert!(is_valid_terminal_size(1000, 1000));
    assert!(is_valid_terminal_size(80, 24));
    assert!(!is_valid_terminal_size(9, 5));
    assert!(!is_valid_terminal_size(10, 4));
    assert!(!is_valid_terminal_size(1001, 1000));
    assert!(!is_valid_terminal_size(1000, 1001));
    assert!(!is_valid_terminal_size(0, 24));
    assert!(!is_valid_terminal_size(80, 0));
}

#[test]
fn initial_size_selection() {
    assert_eq!(initial_size(true, 132, 43, Some((80, 24))), (132, 43));
    assert_eq!(initial_size(false, 132, 43, Some((100, 30))), (100, 30));
    assert_eq!(initial_size(false, 132, 43, None), (80, 25));
}

#[test]
fn session_paths() {
    assert_eq!(session_page_path(&b"local".to_vec()), b"/s/local/".to_vec());
    assert_eq!(session_ws_path(&b"local".to_vec()), b"/s/local/ws/".to_vec());
    let id = b"123e4567-e89b-12d3-a456-426614174000".to_vec();
    assert_eq!(
        session_page_path(&id),
        b"/s/123e4567-e89b-12d3-a456-426614174000/".to_vec()
    );
    assert_eq!(
        session_url(&b"localhost:8000".to_vec(), &b"local".to_vec()),
        b"http://localhost:8000/s/local/".to_vec()
    );
}

#[test]
fn websocket_path_derivation() {
    assert_eq!(trim_trailing_slashes(&b"/s/local/".to_vec()), b"/s/local".to_vec());
    assert_eq!(trim_trailing_slashes(&b"/s/local///".to_vec()), b"/s/local".to_vec());
    assert_eq!(ws_path_of(&b"/s/local/".to_vec()), b"/s/local/ws/".to_vec());
    assert_eq!(ws_path_of(&b"/s/local".to_vec()), b"/s/local/ws/".to_vec());
}

#[test]
fn websocket_url_assembly() {
    let hp = host_port_bytes(&b"localhost".to_vec(), Some(8000));
    assert_eq!(hp, b"localhost:8000".to_vec());
    assert_eq!(host_port_bytes(&b"example.org".to_vec(), None), b"example.org".to_vec());
    assert_eq!(
        ws_url_bytes(false, &hp, &b"/s/local/ws/".to_vec()),
        b"ws://localhost:8000/s/local/ws/".to_vec()
    );
    assert_eq!(
        ws_url_bytes(true, &b"example.org".to_vec(), &b"/s/x/ws/".to_vec()),
        b"wss://example.org/s/x/ws/".to_vec()
    );
}

#[test]
fn disconnect_classification() {
    assert!(is_normal_disconnect(&b"peer closed connection during send".to_vec()));
    assert!(is_normal_disconnect(&b"io error: Connection reset by peer".to_vec()));
    assert!(is_normal_disconnect(&b"Trying to work with closed connection".to_vec()));
    assert!(!is_normal_disconnect(&b"broken pipe".to_vec()));
    assert!(!is_normal_disconnect(&b"connection refused".to_vec()));
}

#[test]
fn child_environment_bindings() {
    let env = child_env(&b"local".to_vec());
    assert_eq!(env.len(), 2);
    assert_eq!(env[0].0, b"RWSHELL".to_vec());
    assert_eq!(env[0].1, b"1".to_vec());
    assert_eq!(env[1].0, b"RWSHELL_SESSION".to_vec());
    assert_eq!(env[1].1, b"local".to_vec());
}

#[test]
fn exit_codes() {
    assert_eq!(exit_code_for(&ShutdownReason::ChildExited), 0);
    assert_eq!(exit_code_for(&ShutdownReason::PtyEof), 0);
    assert_eq!(exit_code_for(&ShutdownReason::Interrupt), 0);
    assert_eq!(exit_code_for(&ShutdownReason::PtyReadError), 1);
}

#[test]
fn session_identifiers() {
    assert_eq!(new_session_id(false), "local".to_string());
    let id = new_session_id(true);
    assert_eq!(id.len(), 36);
    let other = new_session_id(true);
    assert_eq!(other.len(), 36);
}

#[test]
fn server_construction() {
    let s = RwShellServer::new(args(false, true, false));
    assert_eq!(s.session_id, "local".to_string());
    assert!(s.args.readonly);
    let t = RwShellServer::new(args(true, false, true));
    assert_eq!(t.session_id.len(), 36);
    assert!(t.args.headless);
}

#[test]
fn tty_client_construction() {
    let c = TtyClient::new(
        "http://localhost:8000/s/local/".to_string(),
        "ctrl-q".to_string(),
    )
    .unwrap();
    assert_eq!(c.session_url, "http://localhost:8000/s/local/".to_string());
    assert_eq!(c.detach_keys, "ctrl-q".to_string());
}

#[test]
fn nil_pty_discards_writes() {
    let mut p = NilPty;
    assert_eq!(p.write(b"discarded").unwrap(), 9);
    assert!(p.refresh().is_ok());
    let e = RwShellError::ConnectionClosed;
    assert_eq!(e, RwShellError::ConnectionClosed);
}
