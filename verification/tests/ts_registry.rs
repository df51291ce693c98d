use boggers_ts::ts::{
    current_node_id, current_node_weight, enforce_min_weight, init, set_current_task_node,
    TsContext, TsNodeStatus, TsRegistry, KERNEL_WEIGHT,
};

fn boot_registry() -> TsContext {
    let mut ctx = TsContext::new();
    init(&mut ctx);
    let reg = &mut ctx.registry;
    reg.register_node("interrupt_manager", 950, Some("kernel"), vec![]);
    reg.register_node("memory_manager", 900, Some("kernel"), vec![]);
    reg.register_node("task_executor", 850, Some("kernel"), vec![]);
    reg.register_node("user_tasks", 500, Some("kernel"), vec![]);
    reg.register_node("shell", 600, Some("kernel"), vec![]);
    reg.register_node("vga_driver", 800, Some("kernel"), vec![]);
    reg.register_node("timer_driver", 820, Some("kernel"), vec![]);
    reg.register_node("uart_driver", 750, Some("kernel"), vec![]);
    reg.register_node("network_stack", 750, Some("kernel"), vec![]);
    reg.register_node("ramdisk_fs", 650, Some("kernel"), vec![]);
    reg.register_node("gui_driver", 600, Some("kernel"), vec![]);
    ctx
}

#[test]
fn kernel_registered_at_full_weight() {
    let mut ctx = TsContext::new();
    assert_eq!(ctx.registry.get_weight("kernel"), None);
    init(&mut ctx);
    assert_eq!(ctx.registry.get_weight("kernel"), Some(KERNEL_WEIGHT));
    let node = ctx.registry.get("kernel").unwrap();
    assert_eq!(node.id, "kernel");
    assert!(node.parent.is_none());
    assert!(node.deps.is_empty());
    assert_eq!(node.status, TsNodeStatus::Active);
    // a second init changes nothing, and the dump after init is the kernel alone
    init(&mut ctx);
    assert_eq!(ctx.registry.get("kernel").unwrap().parent, None);
    let dump = ctx.registry.hierarchy_dump();
    assert_eq!(dump.len(), 1);
    assert_eq!((dump[0].depth, dump[0].id.as_str(), dump[0].weight), (0, "kernel", 1000));
}

#[test]
fn register_kernel_is_idempotent() {
    let mut reg = TsRegistry::new();
    reg.register_node("kernel", 1000, None, vec!["boot"]);
    reg.register_kernel();
    assert_eq!(reg.get_weight("kernel"), Some(1000));
    assert_eq!(reg.get("kernel").unwrap().deps, vec![String::from("boot")]);
    let mut fresh = TsRegistry::new();
    fresh.register_kernel();
    fresh.register_kernel();
    assert_eq!(fresh.get_weight("kernel"), Some(1000));
    assert_eq!(fresh.roots(), vec![String::from("kernel")]);
}

#[test]
fn register_node_records_fields_and_replaces() {
    let mut reg = TsRegistry::new();
    reg.register_node("net", 750, Some("kernel"), vec!["memory_manager", "timer"]);
    let node = reg.get("net").unwrap();
    assert_eq!(node.weight, 750);
    assert_eq!(node.parent.as_deref(), Some("kernel"));
    assert_eq!(node.deps, vec![String::from("memory_manager"), String::from("timer")]);
    reg.register_node("net", 300, None, vec![]);
    let node = reg.get("net").unwrap();
    assert_eq!(node.weight, 300);
    assert!(node.parent.is_none());
    assert!(node.deps.is_empty());
    assert_eq!(reg.get_weight("missing"), None);
    assert!(reg.get("missing").is_none());
}

#[test]
fn conflict_kernel_always_wins() {
    let ctx = boot_registry();
    let reg = &ctx.registry;
    assert_eq!(reg.resolve_conflict("kernel", "interrupt_manager"), "kernel");
    assert_eq!(reg.resolve_conflict("user_tasks", "kernel"), "kernel");
    assert_eq!(reg.resolve_conflict("kernel", "kernel"), "kernel");
}

#[test]
fn conflict_heavier_node_wins() {
    let ctx = boot_registry();
    let reg = &ctx.registry;
    assert_eq!(reg.resolve_conflict("task_executor", "user_tasks"), "task_executor");
    assert_eq!(reg.resolve_conflict("user_tasks", "task_executor"), "task_executor");
    assert_eq!(reg.resolve_conflict("memory_manager", "interrupt_manager"), "interrupt_manager");
    assert_eq!(reg.resolve_conflict("nobody", "user_tasks"), "user_tasks");
}

#[test]
fn conflict_tie_goes_to_kernel() {
    let ctx = boot_registry();
    let reg = &ctx.registry;
    assert_eq!(reg.resolve_conflict("uart_driver", "network_stack"), "kernel");
    assert_eq!(reg.resolve_conflict("shell", "gui_driver"), "kernel");
    assert_eq!(reg.resolve_conflict("ghost_a", "ghost_b"), "kernel");
    assert_eq!(reg.resolve_conflict("user_tasks", "user_tasks"), "kernel");
}

#[test]
fn roots_and_children_in_key_order() {
    let mut ctx = boot_registry();
    ctx.registry.register_node("beta", 100, None, vec![]);
    ctx.registry.register_node("alpha", 100, None, vec![]);
    ctx.registry.register_node("child", 100, Some("alpha"), vec![]);
    assert_eq!(ctx.registry.roots(), vec!["alpha", "beta", "kernel"]);
    assert_eq!(ctx.registry.children("alpha"), vec!["child"]);
    assert_eq!(ctx.registry.children("child"), Vec::<String>::new());
    assert_eq!(
        ctx.registry.children("kernel"),
        vec![
            "gui_driver",
            "interrupt_manager",
            "memory_manager",
            "network_stack",
            "ramdisk_fs",
            "shell",
            "task_executor",
            "timer_driver",
            "uart_driver",
            "user_tasks",
            "vga_driver",
        ]
    );
}

#[test]
fn hierarchy_dump_kernel_first_children_by_weight() {
    let mut ctx = boot_registry();
    ctx.registry.register_node("aardvark", 100, None, vec![]);
    ctx.registry.register_node("worker", 200, Some("user_tasks"), vec![]);
    let lines: Vec<(usize, String, u32)> = ctx
        .registry
        .hierarchy_dump()
        .into_iter()
        .map(|l| (l.depth, l.id, l.weight))
        .collect();
    let expected: Vec<(usize, &str, u32)> = vec![
        (0, "kernel", 1000),
        (1, "interrupt_manager", 950),
        (1, "memory_manager", 900),
        (1, "task_executor", 850),
        (1, "timer_driver", 820),
        (1, "vga_driver", 800),
        (1, "network_stack", 750),
        (1, "uart_driver", 750),
        (1, "ramdisk_fs", 650),
        (1, "gui_driver", 600),
        (1, "shell", 600),
        (1, "user_tasks", 500),
        (2, "worker", 200),
        (0, "aardvark", 100),
    ];
    let expected: Vec<(usize, String, u32)> =
        expected.into_iter().map(|(d, s, w)| (d, String::from(s), w)).collect();
    assert_eq!(lines, expected);
}

#[test]
fn hierarchy_dump_of_empty_registry_is_empty() {
    let reg = TsRegistry::new();
    assert!(reg.hierarchy_dump().is_empty());
}

#[test]
fn current_node_weight_follows_context() {
    let mut ctx = boot_registry();
    assert_eq!(current_node_id(&ctx), None);
    assert_eq!(current_node_weight(&ctx), 1000);
    set_current_task_node(&mut ctx, Some("user_tasks"));
    assert_eq!(current_node_id(&ctx), Some(String::from("user_tasks")));
    assert_eq!(current_node_weight(&ctx), 500);
    set_current_task_node(&mut ctx, Some("unregistered"));
    assert_eq!(current_node_weight(&ctx), 0);
    assert_eq!(enforce_min_weight(&mut ctx, "sys_write", 300), Err(()));
    set_current_task_node(&mut ctx, None);
    assert_eq!(current_node_id(&ctx), None);
}

#[test]
fn enforce_min_weight_denies_and_records() {
    let mut ctx = boot_registry();
    set_current_task_node(&mut ctx, Some("user_tasks"));
    assert_eq!(enforce_min_weight(&mut ctx, "fs write", 600), Err(()));
    let v = ctx.take_violations();
    assert_eq!(v.len(), 1);
    assert_eq!(v[0].op, "fs write");
    assert_eq!(v[0].node, "user_tasks");
    assert_eq!(v[0].weight, 500);
    assert_eq!(v[0].min_weight, 600);
    assert!(ctx.take_violations().is_empty());
    set_current_task_node(&mut ctx, Some("gui_driver"));
    assert_eq!(enforce_min_weight(&mut ctx, "fs write", 600), Ok(()));
    set_current_task_node(&mut ctx, None);
    assert_eq!(enforce_min_weight(&mut ctx, "anything", 1000), Ok(()));
    assert!(ctx.take_violations().is_empty());
}

#[test]
fn enforce_in_kernel_context_reports_kernel() {
    let mut ctx = TsContext::new();
    init(&mut ctx);
    assert_eq!(enforce_min_weight(&mut ctx, "op", 1000), Ok(()));
    assert_eq!(enforce_min_weight(&mut ctx, "op", 1001), Err(()));
    let v = ctx.take_violations();
    assert_eq!(v[0].node, "kernel");
    assert_eq!(v[0].weight, 1000);
}
