use engineio::{Socket, SocketHandler};

fn fresh() -> Socket<u32> {
    Socket::new()
}

#[test]
fn enter_and_leave_rooms() {
    let mut s = fresh();
    assert!(s.enter("lobby"));
    assert!(s.enter("games"));
    assert!(!s.enter("lobby"));
    assert!(s.leave("lobby"));
    assert!(!s.leave("lobby"));
    assert!(s.enter("lobby"));
}

#[test]
fn register_handlers() {
    let mut s = fresh();
    s.register("chat", 1);
    s.register("chat", 2);
    s.register("join", 3);
    let s = s.on("leave", 4);
    // The registry orders names by first registration; re-registering an
    // existing name must not panic and must keep later names reachable.
    let mut s = s;
    s.register("join", 5);
    assert!(s.enter("after-registering"));
}

#[test]
fn connect_and_disconnect_are_inert() {
    Socket::<u32>::connect("http://example.test/engine.io/");
    let mut s = fresh();
    assert!(s.enter("room"));
    s.disconnect();
    assert!(!s.enter("room"));
}

#[test]
fn socket_handler_exists() {
    let _h = SocketHandler;
}
