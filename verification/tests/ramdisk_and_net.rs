use boggers_ts::fs::{Ramdisk, RAMDISK_SIZE};
use boggers_ts::net::NetStack;
use boggers_ts::ts::{init, set_current_task_node, TsContext};

fn ctx_with(node: &str, weight: u32) -> TsContext {
    let mut ctx = TsContext::new();
    init(&mut ctx);
    ctx.registry.register_node(node, weight, Some("kernel"), vec![]);
    set_current_task_node(&mut ctx, Some(node));
    ctx
}

#[test]
fn write_then_read_returns_data() {
    let mut ctx = ctx_with("gui_driver", 600);
    let mut disk = Ramdisk::new();
    disk.init();
    assert_eq!(disk.write_file(&mut ctx, "hello.txt", b"TS is alpha supremacy"), Ok(21));
    assert_eq!(disk.read_file(&mut ctx, "hello.txt"), Some(b"TS is alpha supremacy".to_vec()));
    assert_eq!(disk.read_file(&mut ctx, "missing.txt"), None);
    assert!(ctx.take_violations().is_empty());
}

#[test]
fn rewrite_gives_latest_contents_and_keeps_others() {
    let mut ctx = ctx_with("writer", 700);
    let mut disk = Ramdisk::new();
    disk.init();
    assert_eq!(disk.write_file(&mut ctx, "a", b"one"), Ok(3));
    assert_eq!(disk.write_file(&mut ctx, "b", b"two"), Ok(3));
    assert_eq!(disk.write_file(&mut ctx, "a", b"three"), Ok(5));
    assert_eq!(disk.read_file(&mut ctx, "a"), Some(b"three".to_vec()));
    assert_eq!(disk.read_file(&mut ctx, "b"), Some(b"two".to_vec()));
    assert_eq!(disk.list_files(&mut ctx), vec!["a", "b"]);
}

#[test]
fn list_files_in_key_order() {
    let mut ctx = ctx_with("writer", 700);
    let mut disk = Ramdisk::new();
    disk.init();
    for name in ["zeta", "Alpha", "beta", "alpha"] {
        assert_eq!(disk.write_file(&mut ctx, name, b"x"), Ok(1));
    }
    assert_eq!(disk.list_files(&mut ctx), vec!["Alpha", "alpha", "beta", "zeta"]);
}

#[test]
fn low_weight_write_is_denied() {
    let mut ctx = ctx_with("user_tasks", 500);
    let mut disk = Ramdisk::new();
    disk.init();
    assert_eq!(disk.write_file(&mut ctx, "denied.txt", b"x"), Err(()));
    let v = ctx.take_violations();
    assert_eq!(v.len(), 1);
    assert_eq!(v[0].op, "fs write");
    assert_eq!(v[0].min_weight, 600);
    // reads and listing need only 500
    assert_eq!(disk.read_file(&mut ctx, "denied.txt"), None);
    assert!(disk.list_files(&mut ctx).is_empty());
    assert!(ctx.take_violations().is_empty());
}

#[test]
fn very_low_weight_cannot_read_or_list() {
    let mut ctx = ctx_with("writer", 700);
    let mut disk = Ramdisk::new();
    disk.init();
    assert_eq!(disk.write_file(&mut ctx, "f", b"data"), Ok(4));
    ctx.registry.register_node("weak", 400, None, vec![]);
    set_current_task_node(&mut ctx, Some("weak"));
    assert_eq!(disk.read_file(&mut ctx, "f"), None);
    assert!(disk.list_files(&mut ctx).is_empty());
    let v = ctx.take_violations();
    assert_eq!(v.len(), 2);
    assert_eq!(v[0].op, "fs read");
    assert_eq!(v[1].op, "fs list");
}

#[test]
fn writes_before_init_only_fit_when_empty() {
    let mut ctx = ctx_with("writer", 700);
    let mut disk = Ramdisk::new();
    assert_eq!(disk.write_file(&mut ctx, "f", b"x"), Err(()));
    assert_eq!(disk.write_file(&mut ctx, "empty", b""), Ok(0));
    assert_eq!(disk.read_file(&mut ctx, "empty"), Some(vec![]));
    assert!(ctx.take_violations().is_empty());
}

#[test]
fn ramdisk_fills_up() {
    let mut ctx = ctx_with("writer", 700);
    let mut disk = Ramdisk::new();
    disk.init();
    let big = vec![7u8; RAMDISK_SIZE - 1];
    assert_eq!(disk.write_file(&mut ctx, "big", &big), Ok(RAMDISK_SIZE - 1));
    assert_eq!(disk.write_file(&mut ctx, "two", b"ab"), Err(()));
    assert_eq!(disk.write_file(&mut ctx, "one", b"a"), Ok(1));
    assert_eq!(disk.write_file(&mut ctx, "more", b"a"), Err(()));
    assert_eq!(disk.read_file(&mut ctx, "one"), Some(b"a".to_vec()));
    // init forgets the files and frees the space
    disk.init();
    assert!(disk.list_files(&mut ctx).is_empty());
    assert_eq!(disk.write_file(&mut ctx, "again", b"abc"), Ok(3));
}

#[test]
fn loopback_is_fifo() {
    let mut ctx = ctx_with("task_executor", 850);
    let mut net = NetStack::new();
    assert_eq!(net.send_packet(&mut ctx, b"first"), Ok(5));
    assert_eq!(net.send_packet(&mut ctx, b"second"), Ok(6));
    assert_eq!(net.recv_packet(&mut ctx), Some(b"first".to_vec()));
    assert_eq!(net.send_packet(&mut ctx, b"third"), Ok(5));
    assert_eq!(net.recv_packet(&mut ctx), Some(b"second".to_vec()));
    assert_eq!(net.recv_packet(&mut ctx), Some(b"third".to_vec()));
    assert_eq!(net.recv_packet(&mut ctx), None);
    net.poll();
    assert!(ctx.take_violations().is_empty());
}

#[test]
fn loopback_queue_holds_eight() {
    let mut ctx = ctx_with("task_executor", 850);
    let mut net = NetStack::new();
    for i in 0..8u8 {
        assert_eq!(net.send_packet(&mut ctx, &[i]), Ok(1));
    }
    assert_eq!(net.send_packet(&mut ctx, &[9]), Err(()));
    assert_eq!(net.recv_packet(&mut ctx), Some(vec![0]));
    assert_eq!(net.send_packet(&mut ctx, &[9]), Ok(1));
}

#[test]
fn packet_length_limit() {
    let mut ctx = ctx_with("task_executor", 850);
    let mut net = NetStack::new();
    assert_eq!(net.send_packet(&mut ctx, &vec![1u8; 2049]), Err(()));
    assert_eq!(net.send_packet(&mut ctx, &vec![1u8; 2048]), Ok(2048));
    assert_eq!(net.send_packet(&mut ctx, b""), Ok(0));
    assert_eq!(net.recv_packet(&mut ctx).map(|p| p.len()), Some(2048));
    assert_eq!(net.recv_packet(&mut ctx), Some(vec![]));
}

#[test]
fn low_weight_net_is_denied() {
    let mut ctx = ctx_with("user_tasks", 500);
    let mut net = NetStack::new();
    assert_eq!(net.send_packet(&mut ctx, b"denied"), Err(()));
    assert_eq!(net.recv_packet(&mut ctx), None);
    let v = ctx.take_violations();
    assert_eq!(v.len(), 2);
    assert_eq!(v[0].op, "net send");
    assert_eq!(v[0].min_weight, 700);
    assert_eq!(v[1].op, "net recv");
    assert_eq!(v[1].min_weight, 650);
}

#[test]
fn recv_needs_less_than_send() {
    let mut ctx = ctx_with("task_executor", 850);
    let mut net = NetStack::new();
    assert_eq!(net.send_packet(&mut ctx, b"p"), Ok(1));
    ctx.registry.register_node("mid", 660, None, vec![]);
    set_current_task_node(&mut ctx, Some("mid"));
    assert_eq!(net.send_packet(&mut ctx, b"q"), Err(()));
    assert_eq!(net.recv_packet(&mut ctx), Some(b"p".to_vec()));
}

#[test]
fn loopback_returns_every_packet_in_send_order() {
    let mut ctx = ctx_with("task_executor", 850);
    let mut s = NetStack::new();
    let packets: Vec<Vec<u8>> = (0u8..8).map(|i| vec![i; (i as usize) + 1]).collect();
    for p in &packets {
        assert_eq!(s.send_packet(&mut ctx, p), Ok(p.len()));
    }
    for p in &packets {
        assert_eq!(s.recv_packet(&mut ctx), Some(p.clone()));
    }
    assert_eq!(s.recv_packet(&mut ctx), None);
}
