use simple_network::patterns::gen_server::{
    GenServer, Request, ServerAction, ServerEvent, ServerState,
};
use simple_network::patterns::gen_statem::{GenStatem, StatemAction, StatemEvent, StatemState};
use simple_network::patterns::net_kernel::NodeTable;
use simple_network::patterns::pipeline::{PipelinePullWorker, PipelinePushClient};
use simple_network::patterns::pubsub::PubSub;
use simple_network::patterns::router_dealer::{Dealer, Router};
use simple_network::unsupported::Unsupported;

#[test]
fn gen_server_frames_and_decodes() {
    let call = GenServer::frame_call(b"ping");
    assert_eq!(call, b"\x00ping".to_vec());
    let cast = GenServer::frame_cast(b"note");
    assert_eq!(cast, b"\x01note".to_vec());
    assert_eq!(GenServer::decode_request(&call), Request::Call(b"ping".to_vec()));
    assert_eq!(GenServer::decode_request(&cast), Request::Cast(b"note".to_vec()));
    assert_eq!(GenServer::decode_request(b"\x07x"), Request::Cast(b"x".to_vec()));
    assert_eq!(GenServer::decode_request(b""), Request::End);
    assert_eq!(GenServer::decode_request(b"\x00"), Request::Call(vec![]));
}

#[test]
fn gen_server_connection_steps() {
    let (st, act) = GenServer::step(ServerState::Receiving, ServerEvent::Received(b"\x00ping".to_vec()));
    assert_eq!(st, ServerState::Calling);
    assert!(matches!(act, ServerAction::HandleCall(ref p) if p == b"ping"));
    let (st, act) = GenServer::step(st, ServerEvent::Replied(b"pong".to_vec()));
    assert_eq!(st, ServerState::Replying);
    assert!(matches!(act, ServerAction::Send(ref p) if p == b"pong"));
    let (st, act) = GenServer::step(st, ServerEvent::Sent);
    assert_eq!(st, ServerState::Receiving);
    assert!(matches!(act, ServerAction::Receive));
    let (st, act) = GenServer::step(st, ServerEvent::Received(b"\x01hi".to_vec()));
    assert_eq!(st, ServerState::Casting);
    assert!(matches!(act, ServerAction::HandleCast(ref p) if p == b"hi"));
    let (st, _) = GenServer::step(st, ServerEvent::CastHandled);
    assert_eq!(st, ServerState::Receiving);
    let (st, act) = GenServer::step(st, ServerEvent::Received(vec![]));
    assert_eq!(st, ServerState::Closed);
    assert!(matches!(act, ServerAction::Close));
    let (st, _) = GenServer::step(ServerState::Calling, ServerEvent::HandlerFailed);
    assert_eq!(st, ServerState::Closed);
    let (st, _) = GenServer::step(ServerState::Replying, ServerEvent::SendFailed);
    assert_eq!(st, ServerState::Closed);
}

#[test]
fn gen_statem_connection_steps() {
    let (st, act) = GenStatem::step(StatemState::Receiving, StatemEvent::Received(b"e".to_vec()));
    assert_eq!(st, StatemState::Handling);
    assert!(matches!(act, StatemAction::Handle(ref p) if p == b"e"));
    let (st, act) = GenStatem::step(st, StatemEvent::Answered(b"a".to_vec()));
    assert_eq!(st, StatemState::Replying);
    assert!(matches!(act, StatemAction::Send(ref p) if p == b"a"));
    let (st, act) = GenStatem::step(st, StatemEvent::Sent);
    assert_eq!(st, StatemState::Receiving);
    assert!(matches!(act, StatemAction::Receive));
    let (st, act) = GenStatem::step(st, StatemEvent::ReceiveFailed);
    assert_eq!(st, StatemState::Closed);
    assert!(matches!(act, StatemAction::Close));
}

#[test]
fn net_kernel_node_table() {
    let mut t: NodeTable<u32> = NodeTable::new();
    assert!(t.get_node("n1").is_none());
    t.connect_node("n1", "127.0.0.1:1", 7);
    t.connect_node("n2", "127.0.0.1:2", 8);
    t.connect_node("n1", "127.0.0.1:3", 9);
    assert_eq!(t.get_node("n1"), Some(&9));
    assert_eq!(t.get_node("n2"), Some(&8));
    let mut names = t.get_all_nodes();
    names.sort();
    assert_eq!(names, vec!["n1".to_string(), "n2".to_string()]);
}

#[test]
fn pubsub_frames_and_prunes() {
    let f = PubSub::frame_publication("news", b"hello");
    assert_eq!(f, b"\x04newshello".to_vec());
    let long = "t".repeat(300);
    let f = PubSub::frame_publication(&long, b"");
    assert_eq!(f[0], (300 % 256) as u8);
    assert_eq!(f.len(), 301);
    let mut peers = vec!["a", "b", "c", "d"];
    PubSub::retain_delivered(&mut peers, &vec![true, false, true, false]);
    assert_eq!(peers, vec!["a", "c"]);
}

#[test]
fn unimplemented_patterns_refuse() {
    assert_eq!(PipelinePushClient.push(b"w"), Err(Unsupported::PipelinePush));
    assert_eq!(PipelinePullWorker.pull(), Err(Unsupported::PipelinePull));
    assert_eq!(Router.route_message("x", b"m"), Err(Unsupported::RouterRoute));
    assert_eq!(Dealer.receive_and_reply(), Err(Unsupported::DealerReceive));
    assert_eq!(Unsupported::PipelinePush.to_string(), "Not implemented");
}
