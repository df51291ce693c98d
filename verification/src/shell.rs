//! The console shell: a line editor over decoded keys, and the commands
//! `dump`, `exit` and `run <name>`.
use vstd::prelude::*;
use crate::ts::TsContext;
use crate::drivers::{DriverSet, DriverSlot, first_of_kind, is_fs, lemma_first_of_kind};
use crate::elf_loader::{parse_elf64, is_elf64_executable, le64};
use crate::syscall::{name_str, file_name};
use pc_keyboard::{DecodedKey, HandleControl, Keyboard, ScancodeSet1};
use pc_keyboard::layouts::Us104Key;

verus! {

/// Longest command line, in bytes.
pub const MAX_LINE: usize = 128;

/// A decoded key: a character, or a key without one.
#[derive(Clone, Copy, PartialEq, Eq, Structural, Debug)]
pub enum ShellKey {
    Char(char),
    Raw,
}

/// What the shell does in answer to a key.
pub enum ShellAction {
    /// Nothing.
    Nothing,
    /// Echo the character just added to the line.
    Echo(char),
    /// Print the hierarchy dump.
    Dump,
    /// Report that halting is not available.
    Exit,
    /// Run the program in the named file.
    Run(Vec<u8>),
    /// Report the unknown command line.
    Unknown(Vec<u8>),
}

/// ASCII whitespace, as `char::is_whitespace` has it.
pub open spec fn is_ws(b: u8) -> bool {
    b == 9 || b == 10 || b == 11 || b == 12 || b == 13 || b == 32
}

/// Number of whitespace bytes at the start of `s`.
pub open spec fn leading_ws(s: Seq<u8>) -> nat
    decreases s.len(),
{
    if s.len() == 0 || !is_ws(s[0]) {
        0
    } else {
        1 + leading_ws(s.drop_first())
    }
}

/// Number of whitespace bytes at the end of `s`.
pub open spec fn trailing_ws(s: Seq<u8>) -> nat
    decreases s.len(),
{
    if s.len() == 0 || !is_ws(s.last()) {
        0
    } else {
        1 + trailing_ws(s.drop_last())
    }
}

/// `s` without leading and trailing whitespace.
pub open spec fn trim_ws(s: Seq<u8>) -> Seq<u8> {
    if leading_ws(s) == s.len() {
        Seq::empty()
    } else {
        s.subrange(leading_ws(s) as int, s.len() - trailing_ws(s))
    }
}

pub open spec fn dump_word() -> Seq<u8> {
    seq![100u8, 117, 109, 112]
}

pub open spec fn exit_word() -> Seq<u8> {
    seq![101u8, 120, 105, 116]
}

/// `s` starts with `run `.
pub open spec fn is_run(s: Seq<u8>) -> bool {
    s.len() >= 4 && s[0] == 114 && s[1] == 117 && s[2] == 110 && s[3] == 32
}

/// What handling `key` on the line `l` does: Enter (`'\r'` or `'\n'`) on a
/// non-empty line answers the command the line spells and clears it; a
/// printable ASCII character joins a line with room and is echoed; anything
/// else answers nothing and keeps the line.
pub open spec fn key_handled(l: Seq<u8>, key: ShellKey, r: ShellAction, l2: Seq<u8>) -> bool {
    match key {
        ShellKey::Char(c) => if c == '\r' || c == '\n' {
            if l.len() == 0 {
                r is Nothing && l2 == l
            } else {
                command_of(l, r) && l2.len() == 0
            }
        } else if l.len() < MAX_LINE && 32 <= (c as u32) < 127 {
            r == ShellAction::Echo(c) && l2 == l.push(c as u8)
        } else {
            r is Nothing && l2 == l
        },
        ShellKey::Raw => r is Nothing && l2 == l,
    }
}

/// The keyboard's scancode decoder (set 1, US 104-key layout, control keys
/// not mapped), with the state it keeps between scancodes: a pending
/// extended prefix and the modifiers held. Its type is kept whole behind
/// this struct.
#[verifier::external_body]
pub struct KeyDecoder {
    kb: Keyboard<Us104Key, ScancodeSet1>,
}

/// The scancode bytes that `kb` has been fed since it was made, oldest first.
pub uninterp spec fn decoder_fed(kb: KeyDecoder) -> Seq<u8>;

/// The key that a fresh decoder completes on the last of `bytes`, having
/// been fed all of them in order (none for an empty history): the decoder
/// starts from a fixed state, so this is a function of the bytes alone.
pub uninterp spec fn key_after(bytes: Seq<u8>) -> Option<ShellKey>;

impl KeyDecoder {
    /// `Keyboard::new(ScancodeSet1::new(), Us104Key, HandleControl::Ignore)`:
    /// a decoder that has been fed nothing.
    #[verifier::external_body]
    pub fn new() -> (r: Self)
        ensures
            decoder_fed(r) == Seq::<u8>::empty(),
    {
        KeyDecoder { kb: Keyboard::new(ScancodeSet1::new(), Us104Key, HandleControl::Ignore) }
    }

    /// `Keyboard::add_byte` on `sc`, then `Keyboard::process_keyevent` on the
    /// key event it completes, if any: the key completed (a character, or a
    /// key without one), or none (a byte that completes no event, a byte the
    /// decoder refuses, a modifier or a release). The byte joins the
    /// decoder's history, and the key is the one that history gives.
    #[verifier::external_body]
    fn decode(&mut self, sc: u8) -> (r: Option<ShellKey>)
        ensures
            decoder_fed(*final(self)) == decoder_fed(*old(self)).push(sc),
            r == key_after(decoder_fed(*final(self))),
    {
        match self.kb.add_byte(sc) {
            Ok(Some(ev)) => match self.kb.process_keyevent(ev) {
                Some(DecodedKey::Unicode(c)) => Some(ShellKey::Char(c)),
                Some(DecodedKey::RawKey(_)) => Some(ShellKey::Raw),
                None => None,
            },
            Ok(None) => None,
            Err(_) => None,
        }
    }
}

/// A byte that may stand in a command line: printable ASCII.
pub open spec fn is_line_byte(b: u8) -> bool {
    32 <= b < 127
}

proof fn lemma_leading_ws(s: Seq<u8>)
    ensures
        leading_ws(s) <= s.len(),
        forall|j: int| 0 <= j < leading_ws(s) ==> is_ws(#[trigger] s[j]),
        leading_ws(s) < s.len() ==> !is_ws(s[leading_ws(s) as int]),
    decreases s.len(),
{
    if s.len() > 0 && is_ws(s[0]) {
        lemma_leading_ws(s.drop_first());
        assert forall|j: int| 0 <= j < leading_ws(s) implies is_ws(#[trigger] s[j]) by {
            if j > 0 {
                assert(s[j] == s.drop_first()[j - 1]);
            }
        }
        if leading_ws(s) < s.len() {
            assert(s[leading_ws(s) as int] == s.drop_first()[leading_ws(s.drop_first()) as int]);
        }
    }
}

proof fn lemma_trailing_ws(s: Seq<u8>)
    ensures
        trailing_ws(s) <= s.len(),
        forall|j: int| s.len() - trailing_ws(s) <= j < s.len() ==> is_ws(#[trigger] s[j]),
        trailing_ws(s) < s.len() ==> !is_ws(s[s.len() - 1 - trailing_ws(s)]),
    decreases s.len(),
{
    if s.len() > 0 && is_ws(s.last()) {
        lemma_trailing_ws(s.drop_last());
        assert forall|j: int| s.len() - trailing_ws(s) <= j < s.len() implies is_ws(#[trigger] s[j]) by {
            if j < s.len() - 1 {
                assert(s[j] == s.drop_last()[j]);
            }
        }
        if trailing_ws(s) < s.len() {
            assert(s[s.len() - 1 - trailing_ws(s)] == s.drop_last()[s.drop_last().len() - 1 - trailing_ws(s.drop_last())]);
        }
    }
}

/// The whitespace at the start of `s` ends at the first other byte.
proof fn lemma_leading_ws_at(s: Seq<u8>, p: int)
    requires
        0 <= p < s.len(),
        !is_ws(s[p]),
        forall|j: int| 0 <= j < p ==> is_ws(#[trigger] s[j]),
    ensures
        leading_ws(s) == p,
    decreases p,
{
    if p > 0 {
        assert forall|j: int| 0 <= j < p - 1 implies is_ws(#[trigger] s.drop_first()[j]) by {
            assert(s.drop_first()[j] == s[j + 1]);
        }
        lemma_leading_ws_at(s.drop_first(), p - 1);
    }
}

/// Counts the whitespace bytes at the start of `s[from..]`.
fn count_leading_ws(s: &[u8], from: usize) -> (n: usize)
    requires
        from <= s@.len(),
    ensures
        n == leading_ws(s@.skip(from as int)),
{
    proof {
        lemma_leading_ws(s@.skip(from as int));
    }
    let mut i: usize = from;
    while i < s.len() && (s[i] == 9 || s[i] == 10 || s[i] == 11 || s[i] == 12 || s[i] == 13 || s[i] == 32)
        invariant
            from <= i <= s@.len(),
            leading_ws(s@.skip(from as int)) == (i - from) + leading_ws(s@.skip(i as int)),
        decreases s@.len() - i,
    {
        proof {
            assert(s@.skip(i as int).drop_first() =~= s@.skip(i + 1));
        }
        i = i + 1;
    }
    proof {
        assert(leading_ws(s@.skip(i as int)) == 0);
    }
    i - from
}

/// Counts the whitespace bytes at the end of `s[..to]`.
fn count_trailing_ws(s: &[u8], to: usize) -> (n: usize)
    requires
        to <= s@.len(),
    ensures
        n == trailing_ws(s@.take(to as int)),
{
    let mut j: usize = to;
    while j > 0 && (s[j - 1] == 9 || s[j - 1] == 10 || s[j - 1] == 11 || s[j - 1] == 12 || s[j - 1] == 13 || s[j - 1] == 32)
        invariant
            0 <= j <= to,
            to <= s@.len(),
            trailing_ws(s@.take(to as int)) == (to - j) + trailing_ws(s@.take(j as int)),
        decreases j,
    {
        proof {
            assert(s@.take(j as int).drop_last() =~= s@.take(j - 1));
        }
        j = j - 1;
    }
    to - j
}

/// `s[from..]` without leading and trailing whitespace.
fn trim_from(s: &[u8], from: usize) -> (r: Vec<u8>)
    requires
        from <= s@.len(),
    ensures
        r@ == trim_ws(s@.skip(from as int)),
{
    let lead = count_leading_ws(s, from);
    let ghost t = s@.skip(from as int);
    proof {
        lemma_leading_ws(t);
        lemma_trailing_ws(t);
    }
    let mut out: Vec<u8> = Vec::new();
    if lead == s.len() - from {
        proof {
            assert(out@ =~= trim_ws(t));
        }
        return out;
    }
    let trail = count_trailing_ws(s, s.len());
    proof {
        assert(s@.take(s@.len() as int) =~= s@);
        // the whitespace at the end of `s` is the whitespace at the end of `t`
        assert(trail == trailing_ws(t)) by {
            lemma_trailing_ws(s@);
            lemma_trailing_ws_suffix(s@, from as int);
        }
    }
    let end = s.len() - trail;
    let start = from + lead;
    let mut k: usize = start;
    while k < end
        invariant
            start <= k <= end,
            end <= s@.len(),
            out@ == s@.subrange(start as int, k as int),
        decreases end - k,
    {
        out.push(s[k]);
        proof {
            assert(out@ =~= s@.subrange(start as int, k + 1));
        }
        k = k + 1;
    }
    proof {
        assert(out@ =~= trim_ws(t));
    }
    out
}

/// The trailing whitespace of `s` and of `s[from..]` agree when `s[from..]`
/// holds something other than whitespace.
proof fn lemma_trailing_ws_suffix(s: Seq<u8>, from: int)
    requires
        0 <= from <= s.len(),
        leading_ws(s.skip(from)) < s.skip(from).len(),
    ensures
        trailing_ws(s) == trailing_ws(s.skip(from)),
    decreases s.len(),
{
    lemma_leading_ws(s.skip(from));
    if s.len() > 0 && is_ws(s.last()) {
        assert(s.skip(from).last() == s.last());
        assert(s.skip(from).drop_last() =~= s.drop_last().skip(from));
        let t = s.skip(from);
        let p = leading_ws(t) as int;
        assert(p < t.len() - 1);
        lemma_leading_ws_at(t.drop_last(), p);
        lemma_trailing_ws_suffix(s.drop_last(), from);
    } else if s.len() > 0 {
        assert(s.skip(from).last() == s.last());
    }
}

/// What an entered command line asks for (`line` is not empty).
pub open spec fn command_of(line: Seq<u8>, r: ShellAction) -> bool {
    let s = trim_ws(line);
    if s == dump_word() {
        r is Dump
    } else if s == exit_word() {
        r is Exit
    } else if is_run(s) {
        r matches ShellAction::Run(n) && n@ == trim_ws(s.skip(4))
    } else {
        r matches ShellAction::Unknown(u) && u@ == s
    }
}

/// The shell: the command line typed so far.
pub struct Shell {
    line: Vec<u8>,
}

impl Shell {
    /// The command line typed so far.
    pub closed spec fn line(&self) -> Seq<u8> {
        self.line@
    }

    #[verifier::type_invariant]
    pub closed spec fn inv(&self) -> bool {
        &&& self.line@.len() <= MAX_LINE
        &&& forall|i: int| 0 <= i < self.line@.len() ==> is_line_byte(#[trigger] self.line@[i])
    }

    /// A line never grows past `MAX_LINE` bytes, all printable ASCII.
    pub proof fn lemma_line(&self)
        requires
            self.inv(),
        ensures
            self.line().len() <= MAX_LINE,
            forall|i: int| 0 <= i < self.line().len() ==> is_line_byte(#[trigger] self.line()[i]),
    {
    }

    pub fn new() -> (r: Self)
        ensures
            r.line().len() == 0,
    {
        Shell { line: Vec::new() }
    }

    /// Feeds scancode `sc` to the keyboard's decoder and handles the key it
    /// completes, if any: the key (the one the decoder's byte history, now
    /// ending in `sc`, gives) and what the shell does in answer to it
    /// (nothing, and the line unchanged, when no key is completed).
    pub fn handle_scancode(&mut self, kb: &mut KeyDecoder, sc: u8) -> (r: (Option<ShellKey>, ShellAction))
        ensures
            decoder_fed(*final(kb)) == decoder_fed(*old(kb)).push(sc),
            r.0 == key_after(decoder_fed(*final(kb))),
            match r.0 {
                Some(k) => key_handled(old(self).line(), k, r.1, final(self).line()),
                None => r.1 is Nothing && final(self).line() == old(self).line(),
            },
    {
        let key = kb.decode(sc);
        match key {
            Some(k) => {
                let action = self.handle_key(k);
                (Some(k), action)
            },
            None => (None, ShellAction::Nothing),
        }
    }

    /// Handles one key. Enter (`'\r'` or `'\n'`) on a non-empty line yields
    /// the command it spells and clears the line; a printable ASCII
    /// character joins the line while there is room and is echoed; anything
    /// else does nothing.
    pub fn handle_key(&mut self, key: ShellKey) -> (r: ShellAction)
        ensures
            key_handled(old(self).line(), key, r, final(self).line()),
    {
        proof {
            use_type_invariant(&*self);
        }
        match key {
            ShellKey::Char(c) => {
                if c == '\r' || c == '\n' {
                    if self.line.len() == 0 {
                        return ShellAction::Nothing;
                    }
                    let mut line: Vec<u8> = Vec::new();
                    std::mem::swap(&mut line, &mut self.line);
                    return parse_line(&line);
                }
                let code = c as u32;
                if self.line.len() < MAX_LINE && 32 <= code && code < 127 {
                    let mut line: Vec<u8> = Vec::new();
                    std::mem::swap(&mut line, &mut self.line);
                    line.push(code as u8);
                    self.line = line;
                    return ShellAction::Echo(c);
                }
                ShellAction::Nothing
            },
            ShellKey::Raw => ShellAction::Nothing,
        }
    }
}

/// The command that a non-empty line spells.
fn parse_line(line: &Vec<u8>) -> (r: ShellAction)
    ensures
        command_of(line@, r),
{
    let s = trim_from(line.as_slice(), 0);
    proof {
        assert(line@.skip(0) =~= line@);
    }
    if s.len() == 4 && s[0] == 100 && s[1] == 117 && s[2] == 109 && s[3] == 112 {
        proof {
            assert(s@ =~= dump_word());
        }
        return ShellAction::Dump;
    }
    if s.len() == 4 && s[0] == 101 && s[1] == 120 && s[2] == 105 && s[3] == 116 {
        proof {
            assert(s@ =~= exit_word());
            assert(s@ != dump_word());
        }
        return ShellAction::Exit;
    }
    proof {
        if s@ == dump_word() {
            assert(s@[0] == 100);
        }
        if s@ == exit_word() {
            assert(s@[0] == 101);
        }
    }
    if s.len() >= 4 && s[0] == 114 && s[1] == 117 && s[2] == 110 && s[3] == 32 {
        let name = trim_from(s.as_slice(), 4);
        return ShellAction::Run(name);
    }
    ShellAction::Unknown(s)
}

/// What `run <name>` found.
#[derive(PartialEq, Eq, Structural, Debug)]
pub enum RunOutcome {
    /// No filesystem driver is registered.
    NoFsDriver,
    /// The file could not be read (absent, or the read was refused).
    NotFound,
    /// The file is not an ELF64 x86-64 executable.
    NotElf,
    /// An executable with this entry point (loading it is not supported yet).
    Elf { entry_point: u64 },
}

/// Looks up the file `name` and recognises an ELF64 executable in it.
pub fn run_cmd(ctx: &mut TsContext, drivers: &mut DriverSet, name: &[u8]) -> (r: RunOutcome)
    ensures
        ({
            let s = old(drivers).slots();
            let i = first_of_kind(s, |d: DriverSlot| is_fs(d));
            let n = file_name(name@);
            &&& i == s.len() ==> r == RunOutcome::NoFsDriver
            &&& i < s.len() ==> (s[i] matches DriverSlot::Fs(f) && {
                let readable = crate::ts::current_weight(*old(ctx)) >= crate::fs::MIN_WEIGHT_FS_READ && f.disk().files().dom().contains(n);
                &&& !readable ==> r == RunOutcome::NotFound
                &&& readable && !is_elf64_executable(f.disk().files()[n]) ==> r == RunOutcome::NotElf
                &&& readable && is_elf64_executable(f.disk().files()[n]) ==> r == RunOutcome::Elf { entry_point: le64(f.disk().files()[n], 24) as u64 }
            })
        }),
        final(drivers).slots() == old(drivers).slots(),
        final(ctx).registry == old(ctx).registry,
        final(ctx).current == old(ctx).current,
        crate::ts::current_weight(*old(ctx)) >= crate::fs::MIN_WEIGHT_FS_READ ==> final(ctx).violations == old(ctx).violations,
        first_of_kind(old(drivers).slots(), |d: DriverSlot| is_fs(d)) == old(drivers).slots().len() ==> *final(ctx) == *old(ctx),
        first_of_kind(old(drivers).slots(), |d: DriverSlot| is_fs(d)) < old(drivers).slots().len() && crate::ts::current_weight(*old(ctx)) < crate::fs::MIN_WEIGHT_FS_READ
            ==> crate::ts::refused(*old(ctx), *final(ctx), "fs read"@, crate::fs::MIN_WEIGHT_FS_READ),
{
    proof {
        lemma_first_of_kind(drivers.slots(), |d: DriverSlot| is_fs(d));
    }
    let ghost s0 = drivers.slots();
    let ghost i = first_of_kind(s0, |d: DriverSlot| is_fs(d));
    let filename = name_str(name);
    let r = drivers.fs_driver();
    let data = match r {
        Some(fs) => Some(fs.read_file(ctx, filename)),
        None => None,
    };
    proof {
        if i < s0.len() {
            assert(drivers.slots() =~= s0);
        }
    }
    match data {
        Some(Some(bytes)) => match parse_elf64(bytes.as_slice()) {
            Some(elf) => RunOutcome::Elf { entry_point: elf.entry_point },
            None => RunOutcome::NotElf,
        },
        Some(None) => RunOutcome::NotFound,
        None => RunOutcome::NoFsDriver,
    }
}

/// A byte that pads a command line: a space or a tab.
pub open spec fn is_pad(b: u8) -> bool {
    b == 32 || b == 9
}

proof fn lemma_trim_padded(p: Seq<u8>, t: Seq<u8>, q: Seq<u8>)
    requires
        forall|i: int| 0 <= i < p.len() ==> is_pad(#[trigger] p[i]),
        forall|i: int| 0 <= i < q.len() ==> is_pad(#[trigger] q[i]),
        t.len() > 0,
        !is_ws(t[0]),
        !is_ws(t[t.len() - 1]),
    ensures
        trim_ws(p + t + q) == t,
{
    let x = p + t + q;
    lemma_leading_ws(x);
    lemma_trailing_ws(x);
    let l = leading_ws(x) as int;
    let r = trailing_ws(x) as int;
    assert(x[p.len() as int] == t[0]);
    if l > p.len() {
        assert(is_ws(x[p.len() as int]));
    }
    if l < p.len() {
        assert(x[l] == p[l]);
    }
    assert(l == p.len());
    let e = p.len() + t.len() - 1;
    assert(x[e] == t[t.len() - 1]);
    if x.len() - r <= e {
        assert(is_ws(x[e]));
    }
    if x.len() - 1 - r > e {
        let j = x.len() - 1 - r;
        assert(x[j] == q[j - p.len() - t.len()]);
    }
    assert(r == q.len());
    assert(x.subrange(l, x.len() - r) =~= t);
}

/// A command line is read without the spaces and tabs around it: padding a
/// command on either side does not change what it asks for, so `dump` and
/// `exit` between any padding still ask for the dump and the exit.
pub proof fn lemma_command_ignores_padding(p: Seq<u8>, t: Seq<u8>, q: Seq<u8>, r: ShellAction)
    requires
        forall|i: int| 0 <= i < p.len() ==> is_pad(#[trigger] p[i]),
        forall|i: int| 0 <= i < q.len() ==> is_pad(#[trigger] q[i]),
        t.len() > 0,
        !is_ws(t[0]),
        !is_ws(t[t.len() - 1]),
    ensures
        command_of(p + t + q, r) == command_of(t, r),
        t == seq![100u8, 117, 109, 112] ==> (command_of(p + t + q, r) <==> r is Dump),
        t == seq![101u8, 120, 105, 116] ==> (command_of(p + t + q, r) <==> r is Exit),
{
    lemma_trim_padded(p, t, q);
    lemma_trim_padded(Seq::empty(), t, Seq::empty());
    assert(Seq::<u8>::empty() + t + Seq::<u8>::empty() =~= t);
    if t == seq![101u8, 120, 105, 116] {
        assert(t[0] != dump_word()[0]);
    }
}

} // verus!
