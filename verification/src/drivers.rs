//! Weight-ordered driver model: every driver is a node of the hierarchy
//! under the kernel, and drivers are initialized heaviest first.
use vstd::prelude::*;
use crate::fs::Ramdisk;
use crate::net::NetStack;
use crate::sort::{sort_by_weight_desc, stable_sort_by_weight_desc};
use crate::ts::{TsContext, refused, TsNodeStatus, TsNode, enforce_min_weight, current_weight, kernel_id, strings_view};

verus! {

/// Geometry of a linear framebuffer: the address of its first pixel, its
/// size in pixels, bytes per pixel and bytes per row.
#[derive(Clone, Copy, PartialEq, Eq, Structural)]
pub struct FramebufferInfo {
    pub base: u64,
    pub width: u32,
    pub height: u32,
    pub bytes_per_pixel: u32,
    pub stride: u32,
}

/// A palette colour.
#[derive(Clone, Copy, PartialEq, Eq, Structural, Debug)]
pub struct Color(pub u8);

/// A drawing operation accepted by the GUI driver, for the framebuffer
/// writer to carry out.
pub enum DrawCommand {
    Clear { color: Color },
    Rect { x: u32, y: u32, w: u32, h: u32, color: Color },
    Text { x: u32, y: u32, text: String, color: Color },
}

/// Least weight (in thousandths) that may write to the UART.
pub const MIN_WEIGHT_UART_WRITE: u32 = 700;

/// Every driver: a name, the node it registers as, its weight (in
/// thousandths), its initialization and its periodic work.
pub trait Driver {
    fn name(&self) -> &'static str;
    fn node_id(&self) -> &'static str;
    fn weight(&self) -> u32;
    fn init(&mut self) -> Result<(), &'static str>;
    fn poll(&mut self) {
    }
}

/// VGA text output.
pub struct VgaTextDriver;

impl VgaTextDriver {
    pub fn new() -> (r: Self) {
        VgaTextDriver
    }
}

/// Timer stub that counts its polls.
pub struct TimerStub {
    tick_count: u64,
}

impl TimerStub {
    pub closed spec fn ticks(&self) -> u64 {
        self.tick_count
    }

    pub fn new() -> (r: Self)
        ensures
            r.ticks() == 0,
    {
        TimerStub { tick_count: 0 }
    }
}

/// Simulated UART.
pub struct SimUart {
    initialized: bool,
}

impl SimUart {
    pub closed spec fn is_initialized(&self) -> bool {
        self.initialized
    }

    pub fn new() -> (r: Self)
        ensures
            !r.is_initialized(),
    {
        SimUart { initialized: false }
    }

    /// Admits a write of `bytes` when the running context weighs at least
    /// `MIN_WEIGHT_UART_WRITE`; the caller then emits the bytes.
    pub fn write(&mut self, ctx: &mut TsContext, bytes: &[u8]) -> (r: Result<(), ()>)
        ensures
            r is Ok <==> current_weight(*old(ctx)) >= MIN_WEIGHT_UART_WRITE,
            *final(self) == *old(self),
            final(ctx).registry == old(ctx).registry,
            final(ctx).current == old(ctx).current,
            r is Ok ==> final(ctx).violations == old(ctx).violations,
            r is Err ==> refused(*old(ctx), *final(ctx), "uart write"@, MIN_WEIGHT_UART_WRITE),
    {
        enforce_min_weight(ctx, "uart write", MIN_WEIGHT_UART_WRITE)
    }
}

/// Least weight (in thousandths) that may draw on the framebuffer.
pub const MIN_WEIGHT_GUI_DRAW: u32 = 550;

/// How a drawing call answers: without a framebuffer it fails and the context
/// is untouched; otherwise it succeeds exactly when the running context
/// weighs at least `MIN_WEIGHT_GUI_DRAW`, and a refusal is recorded.
pub open spec fn gui_gate(g: GuiDriver, before: TsContext, after: TsContext, r: Result<(), ()>) -> bool {
    &&& (r is Ok <==> g.framebuffer() is Some && current_weight(before) >= MIN_WEIGHT_GUI_DRAW)
    &&& (g.framebuffer() is None || current_weight(before) >= MIN_WEIGHT_GUI_DRAW) ==> after == before
    &&& (g.framebuffer() is Some && current_weight(before) < MIN_WEIGHT_GUI_DRAW) ==> refused(before, after, "gui draw"@, MIN_WEIGHT_GUI_DRAW)
}

/// GUI driver over a framebuffer, if one was provided.
pub struct GuiDriver {
    framebuffer: Option<FramebufferInfo>,
    commands: Vec<DrawCommand>,
}

impl GuiDriver {
    pub closed spec fn framebuffer(&self) -> Option<FramebufferInfo> {
        self.framebuffer
    }

    /// Drawing operations accepted and not yet carried out, oldest first.
    pub closed spec fn pending(&self) -> Seq<DrawCommand> {
        self.commands@
    }

    pub fn new(fb_info: Option<FramebufferInfo>) -> (r: Self)
        ensures
            r.framebuffer() == fb_info,
            r.pending().len() == 0,
    {
        GuiDriver { framebuffer: fb_info, commands: Vec::new() }
    }

    /// Fills the screen with `color`. Fails without a framebuffer, and is
    /// refused to a context lighter than `MIN_WEIGHT_GUI_DRAW`.
    pub fn clear_screen(&mut self, ctx: &mut TsContext, color: Color) -> (r: Result<(), ()>)
        ensures
            gui_gate(*old(self), *old(ctx), *final(ctx), r),
            final(self).framebuffer() == old(self).framebuffer(),
            r is Ok ==> final(self).pending() == old(self).pending().push(DrawCommand::Clear { color }),
            r is Err ==> final(self).pending() == old(self).pending(),
    {
        if self.framebuffer.is_none() {
            return Err(());
        }
        if enforce_min_weight(ctx, "gui draw", MIN_WEIGHT_GUI_DRAW).is_err() {
            return Err(());
        }
        self.commands.push(DrawCommand::Clear { color });
        Ok(())
    }

    /// Fills the `w` by `h` rectangle at (`x`, `y`). Fails without a
    /// framebuffer, and is refused to a context lighter than
    /// `MIN_WEIGHT_GUI_DRAW`.
    pub fn draw_rect(&mut self, ctx: &mut TsContext, x: u32, y: u32, w: u32, h: u32, color: Color) -> (r: Result<(), ()>)
        ensures
            gui_gate(*old(self), *old(ctx), *final(ctx), r),
            final(self).framebuffer() == old(self).framebuffer(),
            r is Ok ==> final(self).pending() == old(self).pending().push(DrawCommand::Rect { x, y, w, h, color }),
            r is Err ==> final(self).pending() == old(self).pending(),
    {
        if self.framebuffer.is_none() {
            return Err(());
        }
        if enforce_min_weight(ctx, "gui draw", MIN_WEIGHT_GUI_DRAW).is_err() {
            return Err(());
        }
        self.commands.push(DrawCommand::Rect { x, y, w, h, color });
        Ok(())
    }

    /// Draws `s` from (`x`, `y`). Fails without a framebuffer, and is
    /// refused to a context lighter than `MIN_WEIGHT_GUI_DRAW`.
    pub fn draw_text(&mut self, ctx: &mut TsContext, x: u32, y: u32, s: &str, color: Color) -> (r: Result<(), ()>)
        ensures
            gui_gate(*old(self), *old(ctx), *final(ctx), r),
            final(self).framebuffer() == old(self).framebuffer(),
            r is Ok ==> {
                &&& final(self).pending().len() == old(self).pending().len() + 1
                &&& final(self).pending().drop_last() == old(self).pending()
                &&& final(self).pending().last() matches DrawCommand::Text { x: tx, y: ty, text, color: tc }
                &&& tx == x && ty == y && text@ == s@ && tc == color
            },
            r is Err ==> final(self).pending() == old(self).pending(),
    {
        if self.framebuffer.is_none() {
            return Err(());
        }
        if enforce_min_weight(ctx, "gui draw", MIN_WEIGHT_GUI_DRAW).is_err() {
            return Err(());
        }
        self.commands.push(DrawCommand::Text { x, y, text: s.to_owned(), color });
        proof {
            assert(self.commands@.drop_last() =~= old(self).commands@);
        }
        Ok(())
    }

    pub fn has_framebuffer(&self) -> (r: bool)
        ensures
            r == self.framebuffer() is Some,
    {
        self.framebuffer.is_some()
    }

    /// Hands out the accepted drawing operations, oldest first.
    pub fn take_commands(&mut self) -> (r: Vec<DrawCommand>)
        ensures
            r@ == old(self).pending(),
            final(self).pending().len() == 0,
            final(self).framebuffer() == old(self).framebuffer(),
    {
        let mut taken: Vec<DrawCommand> = Vec::new();
        std::mem::swap(&mut taken, &mut self.commands);
        taken
    }
}

/// Ramdisk filesystem driver.
pub struct FsDriver {
    ramdisk: Ramdisk,
}

impl FsDriver {
    #[verifier::type_invariant]
    pub closed spec fn inv(&self) -> bool {
        self.ramdisk.wf()
    }

    pub closed spec fn disk(&self) -> Ramdisk {
        self.ramdisk
    }

    /// The disk of a filesystem driver is always well formed.
    pub proof fn lemma_disk(&self)
        requires
            self.inv(),
        ensures
            self.disk().wf(),
    {
    }

    pub fn new() -> (r: Self)
        ensures
            r.disk().files() == Map::<Seq<char>, Seq<u8>>::empty(),
            r.disk().capacity() == 0,
            r.disk().used() == 0,
    {
        FsDriver { ramdisk: Ramdisk::new() }
    }

    fn with_disk(&mut self) -> (r: Ramdisk)
        ensures
            r == old(self).disk(),
            r.wf(),
            final(self).disk().wf(),
    {
        proof {
            use_type_invariant(&*self);
        }
        let mut disk = Ramdisk::new();
        std::mem::swap(&mut disk, &mut self.ramdisk);
        disk
    }

    /// Stores `data` as file `filename`; see `Ramdisk::write_file`.
    pub fn write_file(&mut self, ctx: &mut TsContext, filename: &str, data: &[u8]) -> (r: Result<usize, ()>)
        ensures
            final(self).disk().capacity() == old(self).disk().capacity(),
            r is Ok <==> current_weight(*old(ctx)) >= crate::fs::MIN_WEIGHT_FS_WRITE && old(self).disk().used() + data@.len() <= old(self).disk().capacity(),
            r matches Ok(n) ==> {
                &&& n == data@.len()
                &&& final(self).disk().files() == old(self).disk().files().insert(filename@, data@)
                &&& final(self).disk().used() == old(self).disk().used() + data@.len()
            },
            r is Err ==> *final(self) == *old(self),
            final(ctx).registry == old(ctx).registry,
            final(ctx).current == old(ctx).current,
            current_weight(*old(ctx)) >= crate::fs::MIN_WEIGHT_FS_WRITE ==> final(ctx).violations == old(ctx).violations,
            current_weight(*old(ctx)) < crate::fs::MIN_WEIGHT_FS_WRITE ==> refused(*old(ctx), *final(ctx), "fs write"@, crate::fs::MIN_WEIGHT_FS_WRITE),
    {
        let mut disk = self.with_disk();
        let r = disk.write_file(ctx, filename, data);
        self.ramdisk = disk;
        r
    }

    /// The contents of file `filename`; see `Ramdisk::read_file`.
    pub fn read_file(&mut self, ctx: &mut TsContext, filename: &str) -> (r: Option<Vec<u8>>)
        ensures
            *final(self) == *old(self),
            r is Some <==> current_weight(*old(ctx)) >= crate::fs::MIN_WEIGHT_FS_READ && old(self).disk().files().dom().contains(filename@),
            r matches Some(v) ==> v@ == old(self).disk().files()[filename@],
            final(ctx).registry == old(ctx).registry,
            final(ctx).current == old(ctx).current,
            current_weight(*old(ctx)) >= crate::fs::MIN_WEIGHT_FS_READ ==> final(ctx).violations == old(ctx).violations,
            current_weight(*old(ctx)) < crate::fs::MIN_WEIGHT_FS_READ ==> refused(*old(ctx), *final(ctx), "fs read"@, crate::fs::MIN_WEIGHT_FS_READ),
    {
        proof {
            use_type_invariant(&*self);
        }
        self.ramdisk.read_file(ctx, filename)
    }

    /// The file names in key order; see `Ramdisk::list_files`.
    pub fn list_files(&mut self, ctx: &mut TsContext) -> (r: Vec<String>)
        ensures
            *final(self) == *old(self),
            current_weight(*old(ctx)) >= crate::fs::MIN_WEIGHT_FS_LIST ==> strings_view(r@) == old(self).disk().names(),
            current_weight(*old(ctx)) < crate::fs::MIN_WEIGHT_FS_LIST ==> r@.len() == 0,
            final(ctx).registry == old(ctx).registry,
            final(ctx).current == old(ctx).current,
            current_weight(*old(ctx)) >= crate::fs::MIN_WEIGHT_FS_LIST ==> final(ctx).violations == old(ctx).violations,
            current_weight(*old(ctx)) < crate::fs::MIN_WEIGHT_FS_LIST ==> refused(*old(ctx), *final(ctx), "fs list"@, crate::fs::MIN_WEIGHT_FS_LIST),
    {
        proof {
            use_type_invariant(&*self);
        }
        self.ramdisk.list_files(ctx)
    }

    /// Sets up the ramdisk buffer and forgets every file.
    fn init_disk(&mut self)
        ensures
            final(self).disk().files() == Map::<Seq<char>, Seq<u8>>::empty(),
            final(self).disk().capacity() == crate::fs::RAMDISK_SIZE,
            final(self).disk().used() == 0,
    {
        let mut disk = self.with_disk();
        disk.init();
        self.ramdisk = disk;
    }
}

/// Loopback network driver.
pub struct NetDriver {
    stack: NetStack,
}

impl NetDriver {
    pub closed spec fn packets(&self) -> Seq<Seq<u8>> {
        self.stack.packets()
    }

    pub fn new() -> (r: Self)
        ensures
            r.packets() == Seq::<Seq<u8>>::empty(),
    {
        NetDriver { stack: NetStack::new() }
    }

    /// Queues `data`; see `NetStack::send_packet`.
    pub fn send_packet(&mut self, ctx: &mut TsContext, data: &[u8]) -> (r: Result<usize, ()>)
        ensures
            r is Ok <==> current_weight(*old(ctx)) >= crate::net::MIN_WEIGHT_NET_SEND && data@.len() <= crate::net::MAX_PACKET_LEN
                && old(self).packets().len() < crate::net::LOOPBACK_QUEUE_CAP,
            r matches Ok(n) ==> n == data@.len() && final(self).packets() == old(self).packets().push(data@),
            r is Err ==> final(self).packets() == old(self).packets(),
            final(ctx).registry == old(ctx).registry,
            final(ctx).current == old(ctx).current,
            current_weight(*old(ctx)) >= crate::net::MIN_WEIGHT_NET_SEND ==> final(ctx).violations == old(ctx).violations,
            current_weight(*old(ctx)) < crate::net::MIN_WEIGHT_NET_SEND ==> refused(*old(ctx), *final(ctx), "net send"@, crate::net::MIN_WEIGHT_NET_SEND),
    {
        self.stack.send_packet(ctx, data)
    }

    /// Takes the oldest packet; see `NetStack::recv_packet`.
    pub fn recv_packet(&mut self, ctx: &mut TsContext) -> (r: Option<Vec<u8>>)
        ensures
            r is Some <==> current_weight(*old(ctx)) >= crate::net::MIN_WEIGHT_NET_RECV && old(self).packets().len() > 0,
            r matches Some(p) ==> p@ == old(self).packets()[0] && final(self).packets() == old(self).packets().drop_first(),
            r is None ==> final(self).packets() == old(self).packets(),
            final(ctx).registry == old(ctx).registry,
            final(ctx).current == old(ctx).current,
            current_weight(*old(ctx)) >= crate::net::MIN_WEIGHT_NET_RECV ==> final(ctx).violations == old(ctx).violations,
            current_weight(*old(ctx)) < crate::net::MIN_WEIGHT_NET_RECV ==> refused(*old(ctx), *final(ctx), "net recv"@, crate::net::MIN_WEIGHT_NET_RECV),
    {
        self.stack.recv_packet(ctx)
    }
}

} // verus!

verus! {

impl Driver for VgaTextDriver {
    fn name(&self) -> (r: &'static str)
        ensures r@ == "vga_text_driver"@,
    {
        "vga_text_driver"
    }

    fn node_id(&self) -> (r: &'static str)
        ensures r@ == "vga_driver"@,
    {
        "vga_driver"
    }

    fn weight(&self) -> (r: u32)
        ensures r == 800,
    {
        800
    }

    fn init(&mut self) -> (r: Result<(), &'static str>)
        ensures r is Ok,
    {
        Ok(())
    }
}

impl Driver for TimerStub {
    fn name(&self) -> (r: &'static str)
        ensures r@ == "timer_stub"@,
    {
        "timer_stub"
    }

    fn node_id(&self) -> (r: &'static str)
        ensures r@ == "timer_driver"@,
    {
        "timer_driver"
    }

    fn weight(&self) -> (r: u32)
        ensures r == 820,
    {
        820
    }

    fn init(&mut self) -> (r: Result<(), &'static str>)
        ensures r is Ok, final(self).ticks() == 0,
    {
        self.tick_count = 0;
        Ok(())
    }

    fn poll(&mut self)
        ensures final(self).ticks() == (if old(self).ticks() == u64::MAX { 0 } else { (old(self).ticks() + 1) as u64 }),
    {
        self.tick_count = self.tick_count.wrapping_add(1);
    }
}

impl Driver for SimUart {
    fn name(&self) -> (r: &'static str)
        ensures r@ == "sim_uart"@,
    {
        "sim_uart"
    }

    fn node_id(&self) -> (r: &'static str)
        ensures r@ == "uart_driver"@,
    {
        "uart_driver"
    }

    fn weight(&self) -> (r: u32)
        ensures r == 750,
    {
        750
    }

    fn init(&mut self) -> (r: Result<(), &'static str>)
        ensures r is Ok, final(self).is_initialized(),
    {
        self.initialized = true;
        Ok(())
    }
}

impl Driver for GuiDriver {
    fn name(&self) -> (r: &'static str)
        ensures r@ == "gui_driver"@,
    {
        "gui_driver"
    }

    fn node_id(&self) -> (r: &'static str)
        ensures r@ == "gui_driver"@,
    {
        "gui_driver"
    }

    fn weight(&self) -> (r: u32)
        ensures r == 600,
    {
        600
    }

    fn init(&mut self) -> (r: Result<(), &'static str>)
        ensures r is Ok, *final(self) == *old(self),
    {
        Ok(())
    }
}

impl Driver for FsDriver {
    fn name(&self) -> (r: &'static str)
        ensures r@ == "ramdisk_fs_driver"@,
    {
        "ramdisk_fs_driver"
    }

    fn node_id(&self) -> (r: &'static str)
        ensures r@ == "ramdisk_fs"@,
    {
        "ramdisk_fs"
    }

    fn weight(&self) -> (r: u32)
        ensures r == 650,
    {
        650
    }

    fn init(&mut self) -> (r: Result<(), &'static str>)
        ensures
            r is Ok,
            final(self).disk().files() == Map::<Seq<char>, Seq<u8>>::empty(),
            final(self).disk().capacity() == crate::fs::RAMDISK_SIZE,
            final(self).disk().used() == 0,
    {
        self.init_disk();
        Ok(())
    }
}

impl Driver for NetDriver {
    fn name(&self) -> (r: &'static str)
        ensures r@ == "network_driver"@,
    {
        "network_driver"
    }

    fn node_id(&self) -> (r: &'static str)
        ensures r@ == "network_stack"@,
    {
        "network_stack"
    }

    fn weight(&self) -> (r: u32)
        ensures r == 750,
    {
        750
    }

    fn init(&mut self) -> (r: Result<(), &'static str>)
        ensures r is Ok, *final(self) == *old(self),
    {
        Ok(())
    }

    fn poll(&mut self)
        ensures final(self).packets() == old(self).packets(),
    {
        self.stack.poll();
    }
}

/// One registered driver, of any of the known kinds.
pub enum DriverSlot {
    Vga(VgaTextDriver),
    Timer(TimerStub),
    Uart(SimUart),
    Gui(GuiDriver),
    Fs(FsDriver),
    Net(NetDriver),
}

/// Weight of a driver, in thousandths.
pub open spec fn slot_weight(d: DriverSlot) -> u32 {
    match d {
        DriverSlot::Vga(_) => 800,
        DriverSlot::Timer(_) => 820,
        DriverSlot::Uart(_) => 750,
        DriverSlot::Gui(_) => 600,
        DriverSlot::Fs(_) => 650,
        DriverSlot::Net(_) => 750,
    }
}

/// Node a driver registers as.
pub open spec fn slot_node(d: DriverSlot) -> Seq<char> {
    match d {
        DriverSlot::Vga(_) => "vga_driver"@,
        DriverSlot::Timer(_) => "timer_driver"@,
        DriverSlot::Uart(_) => "uart_driver"@,
        DriverSlot::Gui(_) => "gui_driver"@,
        DriverSlot::Fs(_) => "ramdisk_fs"@,
        DriverSlot::Net(_) => "network_stack"@,
    }
}

/// Name of a driver.
pub open spec fn slot_name(d: DriverSlot) -> Seq<char> {
    match d {
        DriverSlot::Vga(_) => "vga_text_driver"@,
        DriverSlot::Timer(_) => "timer_stub"@,
        DriverSlot::Uart(_) => "sim_uart"@,
        DriverSlot::Gui(_) => "gui_driver"@,
        DriverSlot::Fs(_) => "ramdisk_fs_driver"@,
        DriverSlot::Net(_) => "network_driver"@,
    }
}

/// `after` is `before` once initialized: the timer at 0 ticks, the UART
/// ready, the ramdisk set up and empty, the others as they were.
pub open spec fn initialized_from(before: DriverSlot, after: DriverSlot) -> bool {
    match before {
        DriverSlot::Vga(_) => after is Vga,
        DriverSlot::Timer(_) => after matches DriverSlot::Timer(t) && t.ticks() == 0,
        DriverSlot::Uart(_) => after matches DriverSlot::Uart(u) && u.is_initialized(),
        DriverSlot::Gui(g) => after == DriverSlot::Gui(g),
        DriverSlot::Fs(_) => after matches DriverSlot::Fs(f) && {
            &&& f.disk().files() == Map::<Seq<char>, Seq<u8>>::empty()
            &&& f.disk().capacity() == crate::fs::RAMDISK_SIZE
            &&& f.disk().used() == 0
        },
        DriverSlot::Net(n) => after == DriverSlot::Net(n),
    }
}

impl DriverSlot {
    pub fn name(&self) -> (r: &'static str)
        ensures
            r@ == slot_name(*self),
    {
        match self {
            DriverSlot::Vga(d) => d.name(),
            DriverSlot::Timer(d) => d.name(),
            DriverSlot::Uart(d) => d.name(),
            DriverSlot::Gui(d) => d.name(),
            DriverSlot::Fs(d) => d.name(),
            DriverSlot::Net(d) => d.name(),
        }
    }

    pub fn node_id(&self) -> (r: &'static str)
        ensures
            r@ == slot_node(*self),
    {
        match self {
            DriverSlot::Vga(d) => d.node_id(),
            DriverSlot::Timer(d) => d.node_id(),
            DriverSlot::Uart(d) => d.node_id(),
            DriverSlot::Gui(d) => d.node_id(),
            DriverSlot::Fs(d) => d.node_id(),
            DriverSlot::Net(d) => d.node_id(),
        }
    }

    pub fn weight(&self) -> (r: u32)
        ensures
            r == slot_weight(*self),
    {
        match self {
            DriverSlot::Vga(d) => d.weight(),
            DriverSlot::Timer(d) => d.weight(),
            DriverSlot::Uart(d) => d.weight(),
            DriverSlot::Gui(d) => d.weight(),
            DriverSlot::Fs(d) => d.weight(),
            DriverSlot::Net(d) => d.weight(),
        }
    }

    /// Initializes the driver; it always succeeds.
    pub fn init(&mut self) -> (r: Result<(), &'static str>)
        ensures
            r is Ok,
            initialized_from(*old(self), *final(self)),
    {
        match self {
            DriverSlot::Vga(d) => d.init(),
            DriverSlot::Timer(d) => d.init(),
            DriverSlot::Uart(d) => d.init(),
            DriverSlot::Gui(d) => d.init(),
            DriverSlot::Fs(d) => d.init(),
            DriverSlot::Net(d) => d.init(),
        }
    }

    /// The message the driver reports once initialized.
    pub fn init_message(&self) -> (r: &'static str)
        ensures
            self is Vga ==> r@ == "VGA driver initialized"@,
            self is Timer ==> r@ == "timer_stub: initialized (stub tick=0)"@,
            self is Uart ==> r@ == "Sim UART ready"@,
            self matches DriverSlot::Gui(g) ==> r@ == (if g.framebuffer() is Some { "GUI framebuffer initialized"@ } else { "No framebuffer provided"@ }),
            self is Fs ==> r@ == "Ramdisk FS initialized (2 MiB)"@,
            self is Net ==> r@ == "Networking stub initialized (loopback, weight 0.75)"@,
    {
        match self {
            DriverSlot::Vga(_) => "VGA driver initialized",
            DriverSlot::Timer(_) => "timer_stub: initialized (stub tick=0)",
            DriverSlot::Uart(_) => "Sim UART ready",
            DriverSlot::Gui(g) => if g.has_framebuffer() {
                "GUI framebuffer initialized"
            } else {
                "No framebuffer provided"
            },
            DriverSlot::Fs(_) => "Ramdisk FS initialized (2 MiB)",
            DriverSlot::Net(_) => "Networking stub initialized (loopback, weight 0.75)",
        }
    }

    /// The driver's periodic work: the timer counts a tick, the network
    /// stack polls; the others have none.
    pub fn poll(&mut self)
        ensures
            *old(self) matches DriverSlot::Timer(t) ==> *final(self) matches DriverSlot::Timer(u) && u.ticks() == (if t.ticks() == u64::MAX { 0 } else { (t.ticks() + 1) as u64 }),
            *old(self) matches DriverSlot::Net(n) ==> *final(self) matches DriverSlot::Net(m) && m.packets() == n.packets(),
            !(*old(self) is Timer) && !(*old(self) is Net) ==> *final(self) == *old(self),
    {
        match self {
            DriverSlot::Timer(d) => d.poll(),
            DriverSlot::Net(d) => d.poll(),
            _ => {},
        }
    }
}

} // verus!

verus! {

/// Position of the first driver of `s` that `is_kind` selects (`s.len()` when
/// there is none).
pub open spec fn first_of_kind(s: Seq<DriverSlot>, is_kind: spec_fn(DriverSlot) -> bool) -> int
    decreases s.len(),
{
    if s.len() == 0 {
        0
    } else if is_kind(s[0]) {
        0
    } else {
        1 + first_of_kind(s.drop_first(), is_kind)
    }
}

pub proof fn lemma_first_of_kind(s: Seq<DriverSlot>, is_kind: spec_fn(DriverSlot) -> bool)
    ensures
        0 <= first_of_kind(s, is_kind) <= s.len(),
        first_of_kind(s, is_kind) < s.len() ==> is_kind(s[first_of_kind(s, is_kind)]),
        forall|j: int| 0 <= j < first_of_kind(s, is_kind) ==> !is_kind(#[trigger] s[j]),
    decreases s.len(),
{
    if s.len() > 0 && !is_kind(s[0]) {
        lemma_first_of_kind(s.drop_first(), is_kind);
        assert forall|j: int| 0 <= j < first_of_kind(s, is_kind) implies !is_kind(#[trigger] s[j]) by {
            if j > 0 {
                assert(s[j] == s.drop_first()[j - 1]);
            }
        }
    }
}

pub open spec fn is_uart(d: DriverSlot) -> bool {
    d is Uart
}

pub open spec fn is_gui(d: DriverSlot) -> bool {
    d is Gui
}

pub open spec fn is_fs(d: DriverSlot) -> bool {
    d is Fs
}

pub open spec fn is_net(d: DriverSlot) -> bool {
    d is Net
}

/// The registered drivers, in initialization order.
pub struct DriverSet {
    drivers: Vec<DriverSlot>,
}

/// The drivers paired with their weights.
pub open spec fn weighted_slots(s: Seq<DriverSlot>) -> Seq<(DriverSlot, u32)> {
    s.map_values(|d: DriverSlot| (d, slot_weight(d)))
}

impl DriverSet {
    /// The drivers, in initialization order.
    pub closed spec fn slots(&self) -> Seq<DriverSlot> {
        self.drivers@
    }

    pub fn new() -> (r: Self)
        ensures
            r.slots().len() == 0,
    {
        DriverSet { drivers: Vec::new() }
    }

    /// Number of drivers.
    pub fn len(&self) -> (n: usize)
        ensures
            n == self.slots().len(),
    {
        self.drivers.len()
    }

    /// The driver at position `i` of the initialization order.
    pub fn slot(&self, i: usize) -> (d: &DriverSlot)
        requires
            i < self.slots().len(),
        ensures
            *d == self.slots()[i as int],
    {
        &self.drivers[i]
    }

    /// The first UART driver, if any.
    pub fn uart_driver(&mut self) -> (r: Option<&mut SimUart>)
        ensures
            ({
                let i = first_of_kind(old(self).slots(), |d: DriverSlot| is_uart(d));
                &&& r is None ==> i == old(self).slots().len() && *final(self) == *old(self)
                &&& r matches Some(u) ==> {
                    &&& i < old(self).slots().len()
                    &&& old(self).slots()[i] == DriverSlot::Uart(*u)
                    &&& final(self).slots() == old(self).slots().update(i, DriverSlot::Uart(*final(u)))
                }
            }),
    {
        proof {
            lemma_first_of_kind(self.drivers@, |d: DriverSlot| is_uart(d));
        }
        let mut i: usize = 0;
        while i < self.drivers.len()
            invariant
                0 <= i <= self.drivers@.len(),
                *self == *old(self),
                forall|j: int| 0 <= j < i ==> !is_uart(#[trigger] self.drivers@[j]),
                0 <= first_of_kind(self.drivers@, |d: DriverSlot| is_uart(d)) <= self.drivers@.len(),
                first_of_kind(self.drivers@, |d: DriverSlot| is_uart(d)) < self.drivers@.len() ==> is_uart(self.drivers@[first_of_kind(self.drivers@, |d: DriverSlot| is_uart(d))]),
                forall|j: int| 0 <= j < first_of_kind(self.drivers@, |d: DriverSlot| is_uart(d)) ==> !is_uart(#[trigger] self.drivers@[j]),
            decreases self.drivers@.len() - i,
        {
            if matches!(self.drivers[i], DriverSlot::Uart(_)) {
                match &mut self.drivers[i] {
                    DriverSlot::Uart(u) => {
                        return Some(u);
                    },
                    _ => {
                        return None;
                    },
                }
            }
            i = i + 1;
        }
        None
    }

    /// The first GUI driver, if any.
    pub fn gui_driver(&mut self) -> (r: Option<&mut GuiDriver>)
        ensures
            ({
                let i = first_of_kind(old(self).slots(), |d: DriverSlot| is_gui(d));
                &&& r is None ==> i == old(self).slots().len() && *final(self) == *old(self)
                &&& r matches Some(g) ==> {
                    &&& i < old(self).slots().len()
                    &&& old(self).slots()[i] == DriverSlot::Gui(*g)
                    &&& final(self).slots() == old(self).slots().update(i, DriverSlot::Gui(*final(g)))
                }
            }),
    {
        proof {
            lemma_first_of_kind(self.drivers@, |d: DriverSlot| is_gui(d));
        }
        let mut i: usize = 0;
        while i < self.drivers.len()
            invariant
                0 <= i <= self.drivers@.len(),
                *self == *old(self),
                forall|j: int| 0 <= j < i ==> !is_gui(#[trigger] self.drivers@[j]),
                0 <= first_of_kind(self.drivers@, |d: DriverSlot| is_gui(d)) <= self.drivers@.len(),
                first_of_kind(self.drivers@, |d: DriverSlot| is_gui(d)) < self.drivers@.len() ==> is_gui(self.drivers@[first_of_kind(self.drivers@, |d: DriverSlot| is_gui(d))]),
                forall|j: int| 0 <= j < first_of_kind(self.drivers@, |d: DriverSlot| is_gui(d)) ==> !is_gui(#[trigger] self.drivers@[j]),
            decreases self.drivers@.len() - i,
        {
            if matches!(self.drivers[i], DriverSlot::Gui(_)) {
                match &mut self.drivers[i] {
                    DriverSlot::Gui(g) => {
                        return Some(g);
                    },
                    _ => {
                        return None;
                    },
                }
            }
            i = i + 1;
        }
        None
    }

    /// The first filesystem driver, if any.
    pub fn fs_driver(&mut self) -> (r: Option<&mut FsDriver>)
        ensures
            ({
                let i = first_of_kind(old(self).slots(), |d: DriverSlot| is_fs(d));
                &&& r is None ==> i == old(self).slots().len() && *final(self) == *old(self)
                &&& r matches Some(f) ==> {
                    &&& i < old(self).slots().len()
                    &&& old(self).slots()[i] == DriverSlot::Fs(*f)
                    &&& final(self).slots() == old(self).slots().update(i, DriverSlot::Fs(*final(f)))
                }
            }),
    {
        proof {
            lemma_first_of_kind(self.drivers@, |d: DriverSlot| is_fs(d));
        }
        let mut i: usize = 0;
        while i < self.drivers.len()
            invariant
                0 <= i <= self.drivers@.len(),
                *self == *old(self),
                forall|j: int| 0 <= j < i ==> !is_fs(#[trigger] self.drivers@[j]),
                0 <= first_of_kind(self.drivers@, |d: DriverSlot| is_fs(d)) <= self.drivers@.len(),
                first_of_kind(self.drivers@, |d: DriverSlot| is_fs(d)) < self.drivers@.len() ==> is_fs(self.drivers@[first_of_kind(self.drivers@, |d: DriverSlot| is_fs(d))]),
                forall|j: int| 0 <= j < first_of_kind(self.drivers@, |d: DriverSlot| is_fs(d)) ==> !is_fs(#[trigger] self.drivers@[j]),
            decreases self.drivers@.len() - i,
        {
            if matches!(self.drivers[i], DriverSlot::Fs(_)) {
                match &mut self.drivers[i] {
                    DriverSlot::Fs(f) => {
                        return Some(f);
                    },
                    _ => {
                        return None;
                    },
                }
            }
            i = i + 1;
        }
        None
    }

    /// The first network driver, if any.
    pub fn net_driver(&mut self) -> (r: Option<&mut NetDriver>)
        ensures
            ({
                let i = first_of_kind(old(self).slots(), |d: DriverSlot| is_net(d));
                &&& r is None ==> i == old(self).slots().len() && *final(self) == *old(self)
                &&& r matches Some(n) ==> {
                    &&& i < old(self).slots().len()
                    &&& old(self).slots()[i] == DriverSlot::Net(*n)
                    &&& final(self).slots() == old(self).slots().update(i, DriverSlot::Net(*final(n)))
                }
            }),
    {
        proof {
            lemma_first_of_kind(self.drivers@, |d: DriverSlot| is_net(d));
        }
        let mut i: usize = 0;
        while i < self.drivers.len()
            invariant
                0 <= i <= self.drivers@.len(),
                *self == *old(self),
                forall|j: int| 0 <= j < i ==> !is_net(#[trigger] self.drivers@[j]),
                0 <= first_of_kind(self.drivers@, |d: DriverSlot| is_net(d)) <= self.drivers@.len(),
                first_of_kind(self.drivers@, |d: DriverSlot| is_net(d)) < self.drivers@.len() ==> is_net(self.drivers@[first_of_kind(self.drivers@, |d: DriverSlot| is_net(d))]),
                forall|j: int| 0 <= j < first_of_kind(self.drivers@, |d: DriverSlot| is_net(d)) ==> !is_net(#[trigger] self.drivers@[j]),
            decreases self.drivers@.len() - i,
        {
            if matches!(self.drivers[i], DriverSlot::Net(_)) {
                match &mut self.drivers[i] {
                    DriverSlot::Net(n) => {
                        return Some(n);
                    },
                    _ => {
                        return None;
                    },
                }
            }
            i = i + 1;
        }
        None
    }
}

} // verus!

verus! {

/// The node a driver registers as decides its weight.
pub proof fn lemma_node_decides_weight(a: DriverSlot, b: DriverSlot)
    requires
        slot_node(a) == slot_node(b),
    ensures
        slot_weight(a) == slot_weight(b),
{
    reveal_strlit("vga_driver");
    reveal_strlit("timer_driver");
    reveal_strlit("uart_driver");
    reveal_strlit("gui_driver");
    reveal_strlit("ramdisk_fs");
    reveal_strlit("network_stack");
    assert("vga_driver"@[0] == 'v');
    assert("timer_driver"@[0] == 't');
    assert("uart_driver"@[0] == 'u');
    assert("gui_driver"@[0] == 'g');
    assert("ramdisk_fs"@[0] == 'r');
    assert("network_stack"@[0] == 'n');
    assert(slot_node(a)[0] == slot_node(b)[0]);
}

/// No driver registers as the kernel.
pub proof fn lemma_driver_node_not_kernel(d: DriverSlot)
    ensures
        slot_node(d) != kernel_id(),
{
    reveal_strlit("kernel");
    reveal_strlit("vga_driver");
    reveal_strlit("timer_driver");
    reveal_strlit("uart_driver");
    reveal_strlit("gui_driver");
    reveal_strlit("ramdisk_fs");
    reveal_strlit("network_stack");
    assert(kernel_id()[0] == 'k');
    assert(slot_node(d)[0] != 'k');
}

/// Initializing a driver keeps its kind, hence its node and weight.
pub proof fn lemma_init_keeps_kind(before: DriverSlot, after: DriverSlot)
    requires
        initialized_from(before, after),
    ensures
        slot_weight(after) == slot_weight(before),
        slot_node(after) == slot_node(before),
        slot_name(after) == slot_name(before),
{
}

/// The drivers' nodes.
pub open spec fn driver_nodes(s: Seq<DriverSlot>) -> Set<Seq<char>> {
    Set::new(|k: Seq<char>| exists|i: int| 0 <= i < s.len() && #[trigger] slot_node(s[i]) == k)
}

/// Registers each driver as a node under the kernel (in the given order),
/// then initializes them heaviest first (equal weights in the given order);
/// the initialized drivers, in that order, make up the returned set.
pub fn register_and_init_drivers(ctx: &mut TsContext, drivers: Vec<DriverSlot>) -> (r: DriverSet)
    ensures
        final(ctx).registry@.dom() == old(ctx).registry@.dom().union(driver_nodes(drivers@)),
        forall|k: Seq<char>| #[trigger] old(ctx).registry@.dom().contains(k) && !driver_nodes(drivers@).contains(k) ==> final(ctx).registry@[k] == old(ctx).registry@[k],
        forall|i: int| 0 <= i < drivers@.len() ==> {
            let k = #[trigger] slot_node(drivers@[i]);
            &&& final(ctx).registry@[k].id@ == k
            &&& final(ctx).registry@[k].weight == slot_weight(drivers@[i])
            &&& final(ctx).registry@[k].parent_view() == Some(kernel_id())
            &&& final(ctx).registry@[k].deps@.len() == 0
            &&& final(ctx).registry@[k].status == TsNodeStatus::Active
        },
        final(ctx).current == old(ctx).current,
        final(ctx).violations == old(ctx).violations,
        r.slots().len() == drivers@.len(),
        forall|j: int| 0 <= j < r.slots().len() ==> initialized_from(#[trigger] sort_by_weight_desc(weighted_slots(drivers@))[j].0, r.slots()[j]),
        forall|i: int, j: int| 0 <= i < j < r.slots().len() ==> slot_weight(#[trigger] r.slots()[i]) >= slot_weight(#[trigger] r.slots()[j]),
{
    let ghost orig = drivers@;
    let ghost reg0 = ctx.registry@;
    let n = drivers.len();
    let mut i: usize = 0;
    while i < n
        invariant
            0 <= i <= n,
            n == drivers@.len(),
            drivers@ == orig,
            ctx.registry@.dom() == reg0.dom().union(driver_nodes(orig.take(i as int))),
            forall|k: Seq<char>| #[trigger] reg0.dom().contains(k) && !driver_nodes(orig.take(i as int)).contains(k) ==> ctx.registry@[k] == reg0[k],
            forall|m: int| 0 <= m < i ==> {
                let k = #[trigger] slot_node(orig[m]);
                &&& ctx.registry@[k].id@ == k
                &&& ctx.registry@[k].weight == slot_weight(orig[m])
                &&& ctx.registry@[k].parent_view() == Some(kernel_id())
                &&& ctx.registry@[k].deps@.len() == 0
                &&& ctx.registry@[k].status == TsNodeStatus::Active
            },
            ctx.current == old(ctx).current,
            ctx.violations == old(ctx).violations,
        decreases n - i,
    {
        let node = drivers[i].node_id();
        let w = drivers[i].weight();
        let no_deps: Vec<&str> = Vec::new();
        let ghost rb = ctx.registry@;
        proof {
            lemma_driver_node_not_kernel(orig[i as int]);
        }
        ctx.registry.register_node(node, w, Some("kernel"), no_deps);
        proof {
            let k = slot_node(orig[i as int]);
            assert(driver_nodes(orig.take(i + 1)) =~= driver_nodes(orig.take(i as int)).insert(k)) by {
                assert forall|x: Seq<char>| #[trigger] driver_nodes(orig.take(i + 1)).contains(x) implies driver_nodes(orig.take(i as int)).insert(k).contains(x) by {
                    let m = choose|m: int| 0 <= m < orig.take(i + 1).len() && #[trigger] slot_node(orig.take(i + 1)[m]) == x;
                    if m < i {
                        assert(orig.take(i as int)[m] == orig.take(i + 1)[m]);
                    }
                }
                assert forall|x: Seq<char>| #[trigger] driver_nodes(orig.take(i as int)).insert(k).contains(x) implies driver_nodes(orig.take(i + 1)).contains(x) by {
                    if x == k {
                        assert(slot_node(orig.take(i + 1)[i as int]) == x);
                    } else {
                        let m = choose|m: int| 0 <= m < orig.take(i as int).len() && #[trigger] slot_node(orig.take(i as int)[m]) == x;
                        assert(orig.take(i as int)[m] == orig.take(i + 1)[m]);
                    }
                }
            }
            assert(ctx.registry@[k].deps_view().len() == 0);
            assert forall|x: Seq<char>| #[trigger] reg0.dom().contains(x) && !driver_nodes(orig.take(i + 1)).contains(x) implies ctx.registry@[x] == reg0[x] by {
                assert(rb.dom().contains(x));
                assert(x != k);
            }
            assert forall|m: int| 0 <= m < i + 1 implies {
                let k2 = #[trigger] slot_node(orig[m]);
                &&& ctx.registry@[k2].id@ == k2
                &&& ctx.registry@[k2].weight == slot_weight(orig[m])
                &&& ctx.registry@[k2].parent_view() == Some(kernel_id())
                &&& ctx.registry@[k2].deps@.len() == 0
                &&& ctx.registry@[k2].status == TsNodeStatus::Active
            } by {
                if slot_node(orig[m]) == k {
                    lemma_node_decides_weight(orig[m], orig[i as int]);
                } else {
                    assert(orig.take(i as int)[m] == orig[m]);
                    assert(driver_nodes(orig.take(i as int)).contains(slot_node(orig[m])));
                    assert(rb.dom().contains(slot_node(orig[m])));
                }
            }
        }
        i = i + 1;
    }
    proof {
        assert(orig.take(n as int) =~= orig);
    }
    let mut rest = drivers;
    let mut pairs: Vec<(DriverSlot, u32)> = Vec::new();
    let mut k: usize = 0;
    while k < n
        invariant
            0 <= k <= n,
            n == orig.len(),
            rest@ == orig.skip(k as int),
            pairs@ == weighted_slots(orig.take(k as int)),
        decreases n - k,
    {
        let d = rest.remove(0);
        let w = d.weight();
        pairs.push((d, w));
        proof {
            assert(rest@ =~= orig.skip(k + 1));
            assert(weighted_slots(orig.take(k + 1)) =~= weighted_slots(orig.take(k as int)).push((orig[k as int], slot_weight(orig[k as int]))));
        }
        k = k + 1;
    }
    proof {
        assert(orig.take(n as int) =~= orig);
    }
    let sorted = stable_sort_by_weight_desc(pairs);
    let ghost sv = sorted@;
    proof {
        assert forall|m: int| 0 <= m < sv.len() implies #[trigger] sv[m].1 == slot_weight(sv[m].0) by {
            crate::sort::lemma_sorted_element(weighted_slots(orig), m);
        }
    }
    let mut queue = sorted;
    let mut done: Vec<DriverSlot> = Vec::new();
    let mut j: usize = 0;
    while j < n
        invariant
            0 <= j <= n,
            sv.len() == n,
            queue@ == sv.skip(j as int),
            done@.len() == j,
            forall|m: int| 0 <= m < j ==> initialized_from(#[trigger] sv[m].0, done@[m]),
            crate::sort::weights_descending(sv),
            forall|m: int| 0 <= m < sv.len() ==> #[trigger] sv[m].1 == slot_weight(sv[m].0),
        decreases n - j,
    {
        let (mut d, _w) = queue.remove(0);
        let _ = d.init();
        done.push(d);
        proof {
            assert(queue@ =~= sv.skip(j + 1));
        }
        j = j + 1;
    }
    let r = DriverSet { drivers: done };
    proof {
        assert forall|a: int, b: int| 0 <= a < b < r.slots().len() implies slot_weight(#[trigger] r.slots()[a]) >= slot_weight(#[trigger] r.slots()[b]) by {
            lemma_init_keeps_kind(sv[a].0, r.slots()[a]);
            lemma_init_keeps_kind(sv[b].0, r.slots()[b]);
            assert(sv[a].1 >= sv[b].1);
        }
    }
    r
}

} // verus!

verus! {

/// `after` is `before` with at most the driver at `i` replaced.
pub open spec fn only_slot_changed(before: Seq<DriverSlot>, after: Seq<DriverSlot>, i: int) -> bool {
    &&& after.len() == before.len()
    &&& forall|j: int| 0 <= j < before.len() && j != i ==> after[j] == before[j]
}

impl DriverSet {
    /// Position of the first driver that `is_kind` selects (the number of
    /// drivers when there is none); `test` decides it in code.
    fn position<P: Fn(&DriverSlot) -> bool>(&self, test: P, Ghost(is_kind): Ghost<spec_fn(DriverSlot) -> bool>) -> (i: usize)
        requires
            forall|d: &DriverSlot| test.requires((d,)),
            forall|d: &DriverSlot, b: bool| test.ensures((d,), b) ==> b == is_kind(*d),
        ensures
            i == first_of_kind(self.slots(), is_kind),
    {
        proof {
            lemma_first_of_kind(self.drivers@, is_kind);
        }
        let mut i: usize = 0;
        while i < self.drivers.len()
            invariant
                0 <= i <= self.drivers@.len(),
                forall|d: &DriverSlot| test.requires((d,)),
                forall|d: &DriverSlot, b: bool| test.ensures((d,), b) ==> b == is_kind(*d),
                forall|j: int| 0 <= j < i ==> !is_kind(#[trigger] self.drivers@[j]),
                0 <= first_of_kind(self.drivers@, is_kind) <= self.drivers@.len(),
                first_of_kind(self.drivers@, is_kind) < self.drivers@.len() ==> is_kind(self.drivers@[first_of_kind(self.drivers@, is_kind)]),
                forall|j: int| 0 <= j < first_of_kind(self.drivers@, is_kind) ==> !is_kind(#[trigger] self.drivers@[j]),
            decreases self.drivers@.len() - i,
        {
            if test(&self.drivers[i]) {
                return i;
            }
            i = i + 1;
        }
        i
    }
}

fn slot_is_uart(d: &DriverSlot) -> (b: bool)
    ensures
        b == is_uart(*d),
{
    matches!(d, DriverSlot::Uart(_))
}

/// Runs `f` on the first UART driver of `drivers` and hands back its result;
/// `None` when there is none. That driver becomes what `f` left it, and no
/// other driver changes.
pub fn with_uart_driver<R, F: FnOnce(&mut SimUart) -> R>(drivers: &mut DriverSet, f: F) -> (r: Option<R>)
    requires
        forall|d: &mut SimUart| f.requires((d,)),
    ensures
        ({
            let i = first_of_kind(old(drivers).slots(), |d: DriverSlot| is_uart(d));
            &&& (r is None <==> i == old(drivers).slots().len())
            &&& r is None ==> *final(drivers) == *old(drivers)
            &&& r is Some ==> only_slot_changed(old(drivers).slots(), final(drivers).slots(), i)
            &&& r is Some ==> exists|d: &mut SimUart| {
                &&& old(drivers).slots()[i] == DriverSlot::Uart(*d)
                &&& final(drivers).slots()[i] == DriverSlot::Uart(*final(d))
                &&& #[trigger] f.ensures((d,), r->0)
            }
        }),
{
    proof {
        lemma_first_of_kind(drivers.slots(), |d: DriverSlot| is_uart(d));
    }
    let i = drivers.position(slot_is_uart, Ghost(|d: DriverSlot| is_uart(d)));
    if i == drivers.drivers.len() {
        return None;
    }
    let slot = drivers.drivers.remove(i);
    match slot {
        DriverSlot::Uart(mut u) => {
            let ghost before = u;
            let x = f(&mut u);
            let ghost out = x;
            drivers.drivers.insert(i, DriverSlot::Uart(u));
            proof {
                assert(exists|d: &mut SimUart| f.ensures((d,), out) && *d == before && *final(d) == u);
                let d = choose|d: &mut SimUart| f.ensures((d,), out) && *d == before && *final(d) == u;
                assert(old(drivers).slots()[i as int] == DriverSlot::Uart(*d));
                assert(drivers.slots()[i as int] == DriverSlot::Uart(*final(d)));
                assert(only_slot_changed(old(drivers).slots(), drivers.slots(), i as int));
            }
            let r = Some(x);
            assert(r->0 == out);
            r
        },
        other => {
            drivers.drivers.insert(i, other);
            None
        },
    }
}

fn slot_is_gui(d: &DriverSlot) -> (b: bool)
    ensures
        b == is_gui(*d),
{
    matches!(d, DriverSlot::Gui(_))
}

/// Runs `f` on the first GUI driver of `drivers` and hands back its result;
/// `None` when there is none. That driver becomes what `f` left it, and no
/// other driver changes.
pub fn with_gui_driver<R, F: FnOnce(&mut GuiDriver) -> R>(drivers: &mut DriverSet, f: F) -> (r: Option<R>)
    requires
        forall|d: &mut GuiDriver| f.requires((d,)),
    ensures
        ({
            let i = first_of_kind(old(drivers).slots(), |d: DriverSlot| is_gui(d));
            &&& (r is None <==> i == old(drivers).slots().len())
            &&& r is None ==> *final(drivers) == *old(drivers)
            &&& r is Some ==> only_slot_changed(old(drivers).slots(), final(drivers).slots(), i)
            &&& r is Some ==> exists|d: &mut GuiDriver| {
                &&& old(drivers).slots()[i] == DriverSlot::Gui(*d)
                &&& final(drivers).slots()[i] == DriverSlot::Gui(*final(d))
                &&& #[trigger] f.ensures((d,), r->0)
            }
        }),
{
    proof {
        lemma_first_of_kind(drivers.slots(), |d: DriverSlot| is_gui(d));
    }
    let i = drivers.position(slot_is_gui, Ghost(|d: DriverSlot| is_gui(d)));
    if i == drivers.drivers.len() {
        return None;
    }
    let slot = drivers.drivers.remove(i);
    match slot {
        DriverSlot::Gui(mut u) => {
            let ghost before = u;
            let x = f(&mut u);
            let ghost out = x;
            drivers.drivers.insert(i, DriverSlot::Gui(u));
            proof {
                assert(exists|d: &mut GuiDriver| f.ensures((d,), out) && *d == before && *final(d) == u);
                let d = choose|d: &mut GuiDriver| f.ensures((d,), out) && *d == before && *final(d) == u;
                assert(old(drivers).slots()[i as int] == DriverSlot::Gui(*d));
                assert(drivers.slots()[i as int] == DriverSlot::Gui(*final(d)));
                assert(only_slot_changed(old(drivers).slots(), drivers.slots(), i as int));
            }
            let r = Some(x);
            assert(r->0 == out);
            r
        },
        other => {
            drivers.drivers.insert(i, other);
            None
        },
    }
}

fn slot_is_fs(d: &DriverSlot) -> (b: bool)
    ensures
        b == is_fs(*d),
{
    matches!(d, DriverSlot::Fs(_))
}

/// Runs `f` on the first filesystem driver of `drivers` and hands back its result;
/// `None` when there is none. That driver becomes what `f` left it, and no
/// other driver changes.
pub fn with_fs_driver<R, F: FnOnce(&mut FsDriver) -> R>(drivers: &mut DriverSet, f: F) -> (r: Option<R>)
    requires
        forall|d: &mut FsDriver| f.requires((d,)),
    ensures
        ({
            let i = first_of_kind(old(drivers).slots(), |d: DriverSlot| is_fs(d));
            &&& (r is None <==> i == old(drivers).slots().len())
            &&& r is None ==> *final(drivers) == *old(drivers)
            &&& r is Some ==> only_slot_changed(old(drivers).slots(), final(drivers).slots(), i)
            &&& r is Some ==> exists|d: &mut FsDriver| {
                &&& old(drivers).slots()[i] == DriverSlot::Fs(*d)
                &&& final(drivers).slots()[i] == DriverSlot::Fs(*final(d))
                &&& #[trigger] f.ensures((d,), r->0)
            }
        }),
{
    proof {
        lemma_first_of_kind(drivers.slots(), |d: DriverSlot| is_fs(d));
    }
    let i = drivers.position(slot_is_fs, Ghost(|d: DriverSlot| is_fs(d)));
    if i == drivers.drivers.len() {
        return None;
    }
    let slot = drivers.drivers.remove(i);
    match slot {
        DriverSlot::Fs(mut u) => {
            let ghost before = u;
            let x = f(&mut u);
            let ghost out = x;
            drivers.drivers.insert(i, DriverSlot::Fs(u));
            proof {
                assert(exists|d: &mut FsDriver| f.ensures((d,), out) && *d == before && *final(d) == u);
                let d = choose|d: &mut FsDriver| f.ensures((d,), out) && *d == before && *final(d) == u;
                assert(old(drivers).slots()[i as int] == DriverSlot::Fs(*d));
                assert(drivers.slots()[i as int] == DriverSlot::Fs(*final(d)));
                assert(only_slot_changed(old(drivers).slots(), drivers.slots(), i as int));
            }
            let r = Some(x);
            assert(r->0 == out);
            r
        },
        other => {
            drivers.drivers.insert(i, other);
            None
        },
    }
}

fn slot_is_net(d: &DriverSlot) -> (b: bool)
    ensures
        b == is_net(*d),
{
    matches!(d, DriverSlot::Net(_))
}

/// Runs `f` on the first network driver of `drivers` and hands back its result;
/// `None` when there is none. That driver becomes what `f` left it, and no
/// other driver changes.
pub fn with_net_driver<R, F: FnOnce(&mut NetDriver) -> R>(drivers: &mut DriverSet, f: F) -> (r: Option<R>)
    requires
        forall|d: &mut NetDriver| f.requires((d,)),
    ensures
        ({
            let i = first_of_kind(old(drivers).slots(), |d: DriverSlot| is_net(d));
            &&& (r is None <==> i == old(drivers).slots().len())
            &&& r is None ==> *final(drivers) == *old(drivers)
            &&& r is Some ==> only_slot_changed(old(drivers).slots(), final(drivers).slots(), i)
            &&& r is Some ==> exists|d: &mut NetDriver| {
                &&& old(drivers).slots()[i] == DriverSlot::Net(*d)
                &&& final(drivers).slots()[i] == DriverSlot::Net(*final(d))
                &&& #[trigger] f.ensures((d,), r->0)
            }
        }),
{
    proof {
        lemma_first_of_kind(drivers.slots(), |d: DriverSlot| is_net(d));
    }
    let i = drivers.position(slot_is_net, Ghost(|d: DriverSlot| is_net(d)));
    if i == drivers.drivers.len() {
        return None;
    }
    let slot = drivers.drivers.remove(i);
    match slot {
        DriverSlot::Net(mut u) => {
            let ghost before = u;
            let x = f(&mut u);
            let ghost out = x;
            drivers.drivers.insert(i, DriverSlot::Net(u));
            proof {
                assert(exists|d: &mut NetDriver| f.ensures((d,), out) && *d == before && *final(d) == u);
                let d = choose|d: &mut NetDriver| f.ensures((d,), out) && *d == before && *final(d) == u;
                assert(old(drivers).slots()[i as int] == DriverSlot::Net(*d));
                assert(drivers.slots()[i as int] == DriverSlot::Net(*final(d)));
                assert(only_slot_changed(old(drivers).slots(), drivers.slots(), i as int));
            }
            let r = Some(x);
            assert(r->0 == out);
            r
        },
        other => {
            drivers.drivers.insert(i, other);
            None
        },
    }
}

} // verus!
