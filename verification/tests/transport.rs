use simple_network::ffi::cxx_bridge::new_node_runner;
use simple_network::transport::cluster::ClusterTransportBuilder;
use simple_network::transport::framing::{decode_len, encode_len, FrameError, MAX_FRAME};
use simple_network::transport::i2p::{
    naming_lookup_me_command, sam_hello_command, session_create_command, session_id_for,
    stream_accept_command, stream_connect_command, I2pListener,
};
use simple_network::transport::port_forward::PortForwardStub;
use simple_network::transport::quic::QuicTransportStub;
use simple_network::unsupported::Unsupported;

#[test]
fn frame_header_roundtrip() {
    assert_eq!(encode_len(5), [0, 0, 0, 5]);
    assert_eq!(encode_len(0x01020304), [1, 2, 3, 4]);
    assert_eq!(decode_len([0, 0, 1, 0]), Ok(256));
    assert_eq!(decode_len(encode_len(MAX_FRAME)), Ok(MAX_FRAME));
    assert_eq!(decode_len(encode_len(MAX_FRAME + 1)), Err(FrameError::PayloadTooLarge));
    assert_eq!(FrameError::PayloadTooLarge.to_string(), "Payload too large");
}

#[test]
fn sam_commands() {
    assert_eq!(sam_hello_command(), "HELLO VERSION MIN=3.0 MAX=3.3");
    let id = session_id_for("home");
    assert_eq!(id, "simple-network-home");
    assert_eq!(
        session_create_command(&id),
        "SESSION CREATE STYLE=STREAM ID=simple-network-home DESTINATION=TRANSIENT"
    );
    assert_eq!(naming_lookup_me_command(), "NAMING LOOKUP NAME=ME");
    assert_eq!(
        stream_connect_command(&id, "peer.b32.i2p:7777"),
        "STREAM CONNECT ID=simple-network-home DESTINATION=peer.b32.i2p SILENT=false TO_PORT=7777"
    );
    assert_eq!(
        stream_connect_command(&id, "peer.b32.i2p"),
        "STREAM CONNECT ID=simple-network-home DESTINATION=peer.b32.i2p SILENT=false"
    );
    assert_eq!(stream_accept_command(&id), "STREAM ACCEPT ID=simple-network-home SILENT=false");
    let l = I2pListener::new("127.0.0.1:7656".to_string(), id.clone());
    assert_eq!(l.sam_addr(), "127.0.0.1:7656");
    assert_eq!(l.accept_command(), "STREAM ACCEPT ID=simple-network-home SILENT=false");
    assert_eq!(stream_connect_command("s", "h:0"), "STREAM CONNECT ID=s DESTINATION=h SILENT=false TO_PORT=0");
}

#[test]
fn unimplemented_transports_refuse() {
    assert_eq!(PortForwardStub::setup_forwarding(22, "h:22"), Err(Unsupported::PortForwarding));
    assert_eq!(QuicTransportStub::new().connect("h:1"), Err(Unsupported::Quic));
    assert_eq!(QuicTransportStub::default().connect("h:1"), Err(Unsupported::Quic));
    let r: Result<u8, Unsupported> = ClusterTransportBuilder::build(vec![], vec![], vec![], "d".to_string());
    assert_eq!(r, Err(Unsupported::ClusterTransport));
    assert_eq!(Unsupported::Quic.to_string(), "QUIC not yet implemented");
}

#[test]
fn node_runner_start_line() {
    let mut r = new_node_runner();
    assert_eq!(r.start("n1".to_string()), "[CXX Bridge] NodeRunner started with name: n1");
}
