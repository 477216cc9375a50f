use v_kernel::connection::ConnectionInfo;

fn info() -> ConnectionInfo {
    ConnectionInfo {
        ip: "127.0.0.1".to_string(),
        transport: "tcp".to_string(),
        shell_port: 50001,
        iopub_port: 50002,
        stdin_port: 50003,
        control_port: 50004,
        hb_port: 50005,
        key: "secret".to_string(),
        signature_scheme: "hmac-sha256".to_string(),
        kernel_name: None,
    }
}

#[test]
fn endpoint_joins_transport_host_and_port() {
    let conn = info();
    assert_eq!(conn.endpoint(conn.shell_port), "tcp://127.0.0.1:50001");
    assert_eq!(conn.endpoint(conn.hb_port), "tcp://127.0.0.1:50005");
    assert_eq!(conn.endpoint(0), "tcp://127.0.0.1:0");
    assert_eq!(conn.endpoint(65535), "tcp://127.0.0.1:65535");
}

#[test]
fn endpoint_for_another_transport() {
    let mut conn = info();
    conn.transport = "ipc".to_string();
    conn.ip = "/tmp/kernel".to_string();
    assert_eq!(conn.endpoint(7), "ipc:///tmp/kernel:7");
}
