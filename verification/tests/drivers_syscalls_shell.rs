use boggers_ts::status_screen::{decimal, draw_status_screen};
use boggers_ts::drivers::{
    register_and_init_drivers, Color, DrawCommand, DriverSet, DriverSlot, FramebufferInfo,
    FsDriver, GuiDriver, NetDriver, SimUart, TimerStub, VgaTextDriver, Driver,
    with_fs_driver, with_gui_driver, with_net_driver, with_uart_driver,
};
use boggers_ts::shell::{run_cmd, KeyDecoder, RunOutcome, Shell, ShellAction, ShellKey};
use boggers_ts::syscall::{
    dispatch, sys_fs_read, sys_fs_write, sys_net_recv, sys_net_send, SyscallStep,
    SYSCALL_ERROR, SYS_DEBUG_HIERARCHY_DUMP, SYS_EXIT, SYS_FS_LIST, SYS_FS_READ, SYS_FS_WRITE,
    SYS_GET_NODE_WEIGHT, SYS_NET_RECV, SYS_NET_SEND, SYS_WRITE, SYS_YIELD,
};
use boggers_ts::ts::{init, set_current_task_node, TsContext};

fn fb() -> FramebufferInfo {
    FramebufferInfo { base: 0xa0000, width: 320, height: 200, bytes_per_pixel: 1, stride: 320 }
}

fn boot() -> (TsContext, DriverSet) {
    let mut ctx = TsContext::new();
    init(&mut ctx);
    for (node, w) in [("interrupt_manager", 950), ("memory_manager", 900), ("task_executor", 850), ("user_tasks", 500), ("shell", 600)] {
        ctx.registry.register_node(node, w, Some("kernel"), vec![]);
    }
    let drivers = vec![
        DriverSlot::Vga(VgaTextDriver::new()),
        DriverSlot::Timer(TimerStub::new()),
        DriverSlot::Uart(SimUart::new()),
        DriverSlot::Net(NetDriver::new()),
        DriverSlot::Fs(FsDriver::new()),
        DriverSlot::Gui(GuiDriver::new(Some(fb()))),
    ];
    let set = register_and_init_drivers(&mut ctx, drivers);
    (ctx, set)
}

#[test]
fn drivers_registered_under_kernel_and_initialized_heaviest_first() {
    let (ctx, mut set) = boot();
    for (node, w) in [("vga_driver", 800), ("timer_driver", 820), ("uart_driver", 750), ("network_stack", 750), ("ramdisk_fs", 650), ("gui_driver", 600)] {
        let n = ctx.registry.get(node).unwrap();
        assert_eq!(n.weight, w);
        assert_eq!(n.parent.as_deref(), Some("kernel"));
    }
    let order: Vec<(&str, u32)> = (0..set.len()).map(|i| (set.slot(i).name(), set.slot(i).weight())).collect();
    assert_eq!(
        order,
        vec![
            ("timer_stub", 820),
            ("vga_text_driver", 800),
            ("sim_uart", 750),
            ("network_driver", 750),
            ("ramdisk_fs_driver", 650),
            ("gui_driver", 600),
        ]
    );
    assert!(set.uart_driver().is_some());
    assert!(set.gui_driver().unwrap().has_framebuffer());
    assert!(set.net_driver().is_some());
    assert!(set.fs_driver().is_some());
}

#[test]
fn init_order_follows_weight() {
    let mut ctx = TsContext::new();
    init(&mut ctx);
    let drivers = vec![
        DriverSlot::Gui(GuiDriver::new(None)),
        DriverSlot::Vga(VgaTextDriver::new()),
        DriverSlot::Uart(SimUart::new()),
        DriverSlot::Timer(TimerStub::new()),
        DriverSlot::Net(NetDriver::new()),
        DriverSlot::Fs(FsDriver::new()),
    ];
    let names_in: Vec<&str> = drivers.iter().map(|d| d.name()).collect();
    assert_eq!(names_in, vec!["gui_driver", "vga_text_driver", "sim_uart", "timer_stub", "network_driver", "ramdisk_fs_driver"]);
    let mut set = register_and_init_drivers(&mut ctx, drivers);
    let order: Vec<&str> = (0..set.len()).map(|i| set.slot(i).name()).collect();
    assert_eq!(order, vec!["timer_stub", "vga_text_driver", "sim_uart", "network_driver", "ramdisk_fs_driver", "gui_driver"]);
    let messages: Vec<&str> = (0..set.len()).map(|i| set.slot(i).init_message()).collect();
    assert_eq!(messages[0], "timer_stub: initialized (stub tick=0)");
    assert_eq!(messages[5], "No framebuffer provided");
    // the GUI driver had no framebuffer, and drawing fails
    let gui = set.gui_driver().unwrap();
    assert!(!gui.has_framebuffer());
    assert_eq!(gui.clear_screen(&mut ctx, Color(0)), Err(()));
    assert!(ctx.violations.is_empty());
}

#[test]
fn driver_kinds_report_names_nodes_weights() {
    let slots = [
        DriverSlot::Vga(VgaTextDriver::new()),
        DriverSlot::Timer(TimerStub::new()),
        DriverSlot::Uart(SimUart::new()),
        DriverSlot::Gui(GuiDriver::new(None)),
        DriverSlot::Fs(FsDriver::new()),
        DriverSlot::Net(NetDriver::new()),
    ];
    let got: Vec<(&str, &str, u32)> = slots.iter().map(|d| (d.name(), d.node_id(), d.weight())).collect();
    assert_eq!(
        got,
        vec![
            ("vga_text_driver", "vga_driver", 800),
            ("timer_stub", "timer_driver", 820),
            ("sim_uart", "uart_driver", 750),
            ("gui_driver", "gui_driver", 600),
            ("ramdisk_fs_driver", "ramdisk_fs", 650),
            ("network_driver", "network_stack", 750),
        ]
    );
    assert_eq!(slots[3].init_message(), "No framebuffer provided");
    assert_eq!(DriverSlot::Gui(GuiDriver::new(Some(fb()))).init_message(), "GUI framebuffer initialized");
    assert_eq!(slots[4].init_message(), "Ramdisk FS initialized (2 MiB)");
    let mut timer = TimerStub::new();
    timer.poll();
    timer.poll();
    assert_eq!(timer.init(), Ok(()));
    assert_eq!(VgaTextDriver::new().weight(), 800);
}

#[test]
fn gui_accepts_drawing_with_framebuffer() {
    let (mut ctx, _) = boot();
    set_current_task_node(&mut ctx, Some("gui_driver"));
    let mut gui = GuiDriver::new(Some(fb()));
    assert_eq!(gui.clear_screen(&mut ctx, Color(0)), Ok(()));
    assert_eq!(gui.draw_rect(&mut ctx, 10, 10, 80, 40, Color(1)), Ok(()));
    assert_eq!(gui.draw_text(&mut ctx, 20, 70, "BoggersTheOS Beta", Color(15)), Ok(()));
    let cmds = gui.take_commands();
    assert_eq!(cmds.len(), 3);
    assert!(matches!(cmds[0], DrawCommand::Clear { color: Color(0) }));
    assert!(matches!(cmds[1], DrawCommand::Rect { x: 10, y: 10, w: 80, h: 40, color: Color(1) }));
    match &cmds[2] {
        DrawCommand::Text { x, y, text, color } => {
            assert_eq!((*x, *y, text.as_str(), *color), (20, 70, "BoggersTheOS Beta", Color(15)));
        }
        _ => panic!("expected text"),
    }
    assert!(gui.take_commands().is_empty());
}

#[test]
fn uart_write_gate() {
    let (mut ctx, mut set) = boot();
    set_current_task_node(&mut ctx, Some("task_executor"));
    assert_eq!(set.uart_driver().unwrap().write(&mut ctx, b"[uart] hello"), Ok(()));
    set_current_task_node(&mut ctx, Some("user_tasks"));
    assert_eq!(set.uart_driver().unwrap().write(&mut ctx, b"x"), Err(()));
    assert_eq!(ctx.take_violations()[0].op, "uart write");
}

#[test]
fn syscall_gates_by_weight() {
    let (mut ctx, mut set) = boot();
    set_current_task_node(&mut ctx, Some("user_tasks"));
    assert_eq!(dispatch(&mut ctx, &mut set, SYS_GET_NODE_WEIGHT, 0, 0, 0, 0), SyscallStep::NodeWeight(500));
    assert_eq!(dispatch(&mut ctx, &mut set, SYS_WRITE, 0x1000, 24, 0, 0), SyscallStep::Write { ptr: 0x1000, len: 24 });
    assert_eq!(dispatch(&mut ctx, &mut set, SYS_DEBUG_HIERARCHY_DUMP, 0, 0, 0, 0), SyscallStep::Done(SYSCALL_ERROR));
    let v = ctx.take_violations();
    assert_eq!(v.len(), 1);
    assert_eq!(v[0].op, "sys_debug_hierarchy_dump");
    assert_eq!(dispatch(&mut ctx, &mut set, SYS_FS_WRITE, 1, 4, 2, 1), SyscallStep::Done(SYSCALL_ERROR));
    assert_eq!(dispatch(&mut ctx, &mut set, SYS_NET_SEND, 1, 4, 0, 0), SyscallStep::Done(SYSCALL_ERROR));
    assert_eq!(dispatch(&mut ctx, &mut set, SYS_NET_RECV, 1, 4, 0, 0), SyscallStep::Done(SYSCALL_ERROR));
    assert_eq!(ctx.take_violations().len(), 3);
    assert_eq!(dispatch(&mut ctx, &mut set, 42, 0, 0, 0, 0), SyscallStep::Unknown(42));
    assert!(ctx.take_violations().is_empty());
    set_current_task_node(&mut ctx, Some("shell"));
    assert_eq!(dispatch(&mut ctx, &mut set, SYS_DEBUG_HIERARCHY_DUMP, 0, 0, 0, 0), SyscallStep::HierarchyDump);
    assert_eq!(dispatch(&mut ctx, &mut set, SYS_EXIT, 3, 0, 0, 0), SyscallStep::Exit);
    assert_eq!(dispatch(&mut ctx, &mut set, SYS_YIELD, 0, 0, 0, 0), SyscallStep::Done(0));
}

#[test]
fn syscall_argument_checks() {
    let (mut ctx, mut set) = boot();
    assert_eq!(dispatch(&mut ctx, &mut set, SYS_WRITE, 1, 0, 0, 0), SyscallStep::Done(0));
    assert_eq!(dispatch(&mut ctx, &mut set, SYS_WRITE, 1, 2049, 0, 0), SyscallStep::Done(SYSCALL_ERROR));
    assert_eq!(dispatch(&mut ctx, &mut set, SYS_WRITE, 1, 2048, 0, 0), SyscallStep::Write { ptr: 1, len: 2048 });
    assert_eq!(dispatch(&mut ctx, &mut set, SYS_FS_READ, 1, 0, 2, 10), SyscallStep::Done(SYSCALL_ERROR));
    assert_eq!(dispatch(&mut ctx, &mut set, SYS_FS_READ, 1, 257, 2, 10), SyscallStep::Done(SYSCALL_ERROR));
    assert_eq!(dispatch(&mut ctx, &mut set, SYS_FS_READ, 1, 5, 2, 65537), SyscallStep::Done(SYSCALL_ERROR));
    assert_eq!(dispatch(&mut ctx, &mut set, SYS_FS_READ, 1, 256, 2, 65536), SyscallStep::FsRead { name_ptr: 1, name_len: 256, buf_ptr: 2, buf_len: 65536 });
    assert_eq!(dispatch(&mut ctx, &mut set, SYS_FS_WRITE, 1, 5, 2, 0), SyscallStep::FsWrite { name_ptr: 1, name_len: 5, data_ptr: 2, data_len: 0 });
    assert_eq!(dispatch(&mut ctx, &mut set, SYS_FS_WRITE, 1, 0, 2, 1), SyscallStep::Done(SYSCALL_ERROR));
    assert_eq!(dispatch(&mut ctx, &mut set, SYS_NET_SEND, 1, 0, 0, 0), SyscallStep::Done(0));
    assert_eq!(dispatch(&mut ctx, &mut set, SYS_NET_SEND, 1, 2049, 0, 0), SyscallStep::Done(SYSCALL_ERROR));
    assert_eq!(dispatch(&mut ctx, &mut set, SYS_NET_SEND, 1, 9, 0, 0), SyscallStep::NetSend { ptr: 1, len: 9 });
    assert_eq!(dispatch(&mut ctx, &mut set, SYS_NET_RECV, 1, 0, 0, 0), SyscallStep::NetRecv { ptr: 1, len: 0 });
    assert_eq!(dispatch(&mut ctx, &mut set, SYS_NET_RECV, 1, 2049, 0, 0), SyscallStep::Done(SYSCALL_ERROR));
}

#[test]
fn syscall_fs_round_trip() {
    let (mut ctx, mut set) = boot();
    assert_eq!(dispatch(&mut ctx, &mut set, SYS_FS_LIST, 0, 0, 0, 0), SyscallStep::Done(0));
    assert_eq!(sys_fs_write(&mut ctx, &mut set, b"hello.txt", b"TS is alpha supremacy"), 21);
    assert_eq!(sys_fs_write(&mut ctx, &mut set, b"b", b""), 0);
    assert_eq!(dispatch(&mut ctx, &mut set, SYS_FS_LIST, 0, 0, 0, 0), SyscallStep::Done(2));
    assert_eq!(sys_fs_read(&mut ctx, &mut set, b"hello.txt", 64), Some(b"TS is alpha supremacy".to_vec()));
    assert_eq!(sys_fs_read(&mut ctx, &mut set, b"hello.txt", 5), Some(b"TS is".to_vec()));
    assert_eq!(sys_fs_read(&mut ctx, &mut set, b"nope", 5), None);
    // a name that is not UTF-8 stands for the empty name
    assert_eq!(sys_fs_read(&mut ctx, &mut set, &[0xff, 0xfe], 5), None);
    assert_eq!(sys_fs_write(&mut ctx, &mut set, &[0xff], b"anon"), 4);
    assert_eq!(sys_fs_read(&mut ctx, &mut set, &[0xc3, 0x28], 10), Some(b"anon".to_vec()));
    set_current_task_node(&mut ctx, Some("user_tasks"));
    assert_eq!(sys_fs_write(&mut ctx, &mut set, b"denied.txt", b"x"), SYSCALL_ERROR);
}

#[test]
fn syscall_without_drivers() {
    let mut ctx = TsContext::new();
    init(&mut ctx);
    let mut set = DriverSet::new();
    assert_eq!(dispatch(&mut ctx, &mut set, SYS_FS_LIST, 0, 0, 0, 0), SyscallStep::Done(SYSCALL_ERROR));
    assert_eq!(sys_fs_write(&mut ctx, &mut set, b"a", b"b"), SYSCALL_ERROR);
    assert_eq!(sys_fs_read(&mut ctx, &mut set, b"a", 1), None);
    assert_eq!(sys_net_send(&mut ctx, &mut set, b"a"), SYSCALL_ERROR);
    assert_eq!(sys_net_recv(&mut ctx, &mut set, 4), None);
    assert_eq!(run_cmd(&mut ctx, &mut set, b"prog"), RunOutcome::NoFsDriver);
}

#[test]
fn syscall_net_loopback() {
    let (mut ctx, mut set) = boot();
    assert_eq!(sys_net_recv(&mut ctx, &mut set, 64), None);
    assert_eq!(sys_net_send(&mut ctx, &mut set, b"TS alpha packet supremacy"), 25);
    assert_eq!(sys_net_recv(&mut ctx, &mut set, 2), Some(b"TS".to_vec()));
    // the truncated packet left the queue whole
    assert_eq!(sys_net_recv(&mut ctx, &mut set, 64), None);
}

#[test]
fn shell_commands() {
    let mut sh = Shell::new();
    let feed = |sh: &mut Shell, s: &str| -> ShellAction {
        let mut last = ShellAction::Nothing;
        for c in s.chars() {
            last = sh.handle_key(ShellKey::Char(c));
        }
        last
    };
    assert!(matches!(feed(&mut sh, "dump\r"), ShellAction::Dump));
    assert!(matches!(feed(&mut sh, "  exit \n"), ShellAction::Exit));
    match feed(&mut sh, "run   hello.elf  \r") {
        ShellAction::Run(name) => assert_eq!(name, b"hello.elf".to_vec()),
        _ => panic!("expected run"),
    }
    match feed(&mut sh, "run\r") {
        ShellAction::Unknown(line) => assert_eq!(line, b"run".to_vec()),
        _ => panic!("expected unknown"),
    }
    match feed(&mut sh, "dumpy\r") {
        ShellAction::Unknown(line) => assert_eq!(line, b"dumpy".to_vec()),
        _ => panic!("expected unknown"),
    }
    assert!(matches!(feed(&mut sh, "\r"), ShellAction::Nothing));
    assert!(matches!(sh.handle_key(ShellKey::Raw), ShellAction::Nothing));
    assert!(matches!(sh.handle_key(ShellKey::Char('x')), ShellAction::Echo('x')));
    assert!(matches!(sh.handle_key(ShellKey::Char('\t')), ShellAction::Nothing));
    assert!(matches!(sh.handle_key(ShellKey::Char('é')), ShellAction::Nothing));
    match sh.handle_key(ShellKey::Char('\n')) {
        ShellAction::Unknown(line) => assert_eq!(line, b"x".to_vec()),
        _ => panic!("expected unknown"),
    }
}

#[test]
fn shell_line_is_capped() {
    let mut sh = Shell::new();
    for _ in 0..128 {
        assert!(matches!(sh.handle_key(ShellKey::Char('a')), ShellAction::Echo('a')));
    }
    assert!(matches!(sh.handle_key(ShellKey::Char('b')), ShellAction::Nothing));
    match sh.handle_key(ShellKey::Char('\r')) {
        ShellAction::Unknown(line) => assert_eq!(line, vec![b'a'; 128]),
        _ => panic!("expected unknown"),
    }
}

#[test]
fn run_command_outcomes() {
    let (mut ctx, mut set) = boot();
    assert_eq!(run_cmd(&mut ctx, &mut set, b"prog"), RunOutcome::NotFound);
    assert_eq!(sys_fs_write(&mut ctx, &mut set, b"text", b"not an executable"), 17);
    assert_eq!(run_cmd(&mut ctx, &mut set, b"text"), RunOutcome::NotElf);
    let mut h = vec![0u8; 64];
    h[0..7].copy_from_slice(&[0x7f, b'E', b'L', b'F', 2, 1, 1]);
    h[16] = 2;
    h[18] = 62;
    h[24..32].copy_from_slice(&0x20_1000u64.to_le_bytes());
    assert_eq!(sys_fs_write(&mut ctx, &mut set, b"prog", &h), 64);
    assert_eq!(run_cmd(&mut ctx, &mut set, b"prog"), RunOutcome::Elf { entry_point: 0x20_1000 });
}

#[test]
fn with_driver_runs_on_the_driver_of_that_kind_or_gives_none() {
    let (mut ctx, mut set) = boot();
    let wrote = with_fs_driver(&mut set, |fs| fs.write_file(&mut ctx, "a.txt", b"abc"));
    assert_eq!(wrote, Some(Ok(3)));
    let read = with_fs_driver(&mut set, |fs| fs.read_file(&mut ctx, "a.txt"));
    assert_eq!(read, Some(Some(b"abc".to_vec())));
    assert_eq!(with_uart_driver(&mut set, |u| u.write(&mut ctx, b"hi")), Some(Ok(())));
    assert_eq!(with_gui_driver(&mut set, |g| g.has_framebuffer()), Some(true));
    assert!(with_net_driver(&mut set, |_| 7).is_some());

    let mut none = DriverSet::new();
    assert_eq!(with_fs_driver(&mut none, |_| 1), None);
    assert_eq!(with_uart_driver(&mut none, |_| 1), None);
    assert_eq!(with_gui_driver(&mut none, |_| 1), None);
    assert_eq!(with_net_driver(&mut none, |_| 1), None);
}

#[test]
fn gui_drawing_refused_below_minimum_weight() {
    let (mut ctx, _) = boot();
    set_current_task_node(&mut ctx, Some("user_tasks"));
    let mut gui = GuiDriver::new(Some(fb()));
    assert_eq!(gui.draw_rect(&mut ctx, 0, 0, 10, 10, Color(4)), Err(()));
    assert_eq!(gui.clear_screen(&mut ctx, Color(0)), Err(()));
    assert_eq!(gui.draw_text(&mut ctx, 0, 0, "x", Color(1)), Err(()));
    assert!(gui.has_framebuffer());
    assert_eq!(gui.take_commands().len(), 0);
    let v = ctx.take_violations();
    assert_eq!(v.len(), 3);
    assert_eq!((v[0].op.as_str(), v[0].node.as_str(), v[0].weight, v[0].min_weight), ("gui draw", "user_tasks", 500, 550));
}

#[test]
fn status_screen_draws_ten_commands_with_decimal_status() {
    assert_eq!(decimal(0), "0");
    assert_eq!(decimal(7), "7");
    assert_eq!(decimal(1200), "1200");
    assert_eq!(decimal(u64::MAX), "18446744073709551615");
    let (mut ctx, _) = boot();
    set_current_task_node(&mut ctx, Some("gui_driver"));
    let mut gui = GuiDriver::new(Some(fb()));
    assert_eq!(draw_status_screen(&mut ctx, &mut gui, 42, 3), Ok(()));
    let cmds = gui.take_commands();
    assert_eq!(cmds.len(), 10);
    assert!(matches!(cmds[0], DrawCommand::Clear { color: Color(0) }));
    assert!(matches!(cmds[4], DrawCommand::Rect { x: 10, y: 60, w: 300, h: 30, color: Color(14) }));
    match (&cmds[8], &cmds[9]) {
        (DrawCommand::Text { y: 110, text: t1, .. }, DrawCommand::Text { y: 120, text: t2, .. }) => {
            assert_eq!(t1, "Uptime: 42 ticks");
            assert_eq!(t2, "Files in ramdisk: 3");
        }
        _ => panic!("expected the two status lines"),
    }
    // a light context is refused once and nothing is drawn
    set_current_task_node(&mut ctx, Some("user_tasks"));
    assert_eq!(draw_status_screen(&mut ctx, &mut gui, 42, 3), Err(()));
    assert_eq!(gui.take_commands().len(), 0);
    assert_eq!(ctx.take_violations().len(), 1);
    let mut none = GuiDriver::new(None);
    assert_eq!(draw_status_screen(&mut ctx, &mut none, 0, 0), Err(()));
}

#[test]
fn scancodes_are_decoded_and_edited_into_commands() {
    let mut kb = KeyDecoder::new();
    let mut shell = Shell::new();
    // "dump" then Enter, in scancode set 1: each key pressed and released
    let mut actions = Vec::new();
    for sc in [0x20u8, 0xA0, 0x16, 0x96, 0x32, 0xB2, 0x19, 0x99, 0x1C, 0x9C] {
        actions.push(shell.handle_scancode(&mut kb, sc));
    }
    assert_eq!(actions[0].0, Some(ShellKey::Char('d')));
    assert_eq!(actions[2].0, Some(ShellKey::Char('u')));
    assert!(matches!(actions[0].1, ShellAction::Echo('d')));
    assert_eq!(actions[1].0, None);
    assert!(matches!(actions[1].1, ShellAction::Nothing));
    assert!(matches!(actions[8].1, ShellAction::Dump));
}

#[test]
fn syscall_second_halves_refuse_out_of_range_arguments() {
    let (mut ctx, mut set) = boot();
    assert_eq!(sys_fs_write(&mut ctx, &mut set, b"f", b"data"), 4);
    set_current_task_node(&mut ctx, Some("user_tasks"));
    let long_name = vec![b'a'; 257];
    assert_eq!(sys_fs_read(&mut ctx, &mut set, b"", 4), None);
    assert_eq!(sys_fs_read(&mut ctx, &mut set, &long_name, 4), None);
    assert_eq!(sys_fs_read(&mut ctx, &mut set, b"f", 65537), None);
    assert_eq!(sys_fs_write(&mut ctx, &mut set, b"", b"x"), SYSCALL_ERROR);
    assert_eq!(sys_fs_write(&mut ctx, &mut set, b"g", &vec![0u8; 65537]), SYSCALL_ERROR);
    assert_eq!(sys_net_send(&mut ctx, &mut set, &vec![0u8; 2049]), SYSCALL_ERROR);
    assert_eq!(sys_net_send(&mut ctx, &mut set, b""), 0);
    assert_eq!(sys_net_recv(&mut ctx, &mut set, 2049), None);
    // refused on their arguments before any weight check: nothing recorded
    assert!(ctx.take_violations().is_empty());
}
