//! In-memory filesystem: a fixed 2 MiB buffer that files are appended to,
//! and an index from file name to the region that holds the file. Every
//! operation is gated by the weight of the running context.
use vstd::prelude::*;
use crate::strmap::{StrMap, keys_sorted};
use crate::ts::{TsContext, refused, enforce_min_weight, current_weight, strings_view};

verus! {

/// Size of the ramdisk buffer once initialized: 2 MiB.
pub const RAMDISK_SIZE: usize = 2 * 1024 * 1024;
/// Least weight (in thousandths) that may write a file.
pub const MIN_WEIGHT_FS_WRITE: u32 = 600;
/// Least weight (in thousandths) that may read a file.
pub const MIN_WEIGHT_FS_READ: u32 = 500;
/// Least weight (in thousandths) that may list the files.
pub const MIN_WEIGHT_FS_LIST: u32 = 500;

/// Where a file sits in the buffer.
#[derive(Clone, Copy)]
struct FileEntry {
    offset: usize,
    len: usize,
}

/// The ramdisk: the buffer, the index of files, and the first free offset.
pub struct Ramdisk {
    buffer: Vec<u8>,
    index: StrMap<FileEntry>,
    next_offset: usize,
}

impl Ramdisk {
    /// Files by name, each with its contents.
    pub closed spec fn files(&self) -> Map<Seq<char>, Seq<u8>> {
        self.index@.map_values(
            |e: FileEntry| self.buffer@.subrange(e.offset as int, e.offset + e.len),
        )
    }

    /// File names in increasing key order.
    pub closed spec fn names(&self) -> Seq<Seq<char>> {
        self.index.keys()
    }

    /// Size of the buffer: 0 before `init`, `RAMDISK_SIZE` after.
    pub closed spec fn capacity(&self) -> nat {
        self.buffer@.len()
    }

    /// Bytes taken by the writes since the last `init`.
    pub closed spec fn used(&self) -> nat {
        self.next_offset as nat
    }

    pub closed spec fn wf(&self) -> bool {
        &&& self.index.inv()
        &&& self.next_offset <= self.buffer@.len()
        &&& forall|k: Seq<char>| #[trigger]
            self.index@.dom().contains(k) ==> self.index@[k].offset + self.index@[k].len
                <= self.next_offset
    }

    /// The names list every file once, in increasing key order, and taken
    /// space never exceeds the buffer.
    pub proof fn lemma_wf(&self)
        requires
            self.wf(),
        ensures
            keys_sorted(self.names()),
            forall|k: Seq<char>| #[trigger] self.files().dom().contains(k) <==> self.names().contains(k),
            self.used() <= self.capacity(),
            self.files().dom().finite(),
    {
        self.index.lemma_keys();
        assert(self.files().dom() =~= self.index@.dom());
    }

    /// An empty ramdisk whose buffer is not yet set up.
    pub fn new() -> (r: Self)
        ensures
            r.wf(),
            r.files() == Map::<Seq<char>, Seq<u8>>::empty(),
            r.capacity() == 0,
            r.used() == 0,
    {
        let index = StrMap::new();
        proof {
            use_type_invariant(&index);
        }
        let r = Ramdisk { buffer: Vec::with_capacity(RAMDISK_SIZE), index, next_offset: 0 };
        assert(r.files() =~= Map::<Seq<char>, Seq<u8>>::empty());
        r
    }

    /// Sets the buffer to its full size and forgets every file.
    pub fn init(&mut self)
        requires
            old(self).wf(),
        ensures
            final(self).wf(),
            final(self).files() == Map::<Seq<char>, Seq<u8>>::empty(),
            final(self).capacity() == RAMDISK_SIZE,
            final(self).used() == 0,
    {
        self.buffer.resize(RAMDISK_SIZE, 0);
        self.next_offset = 0;
        self.index.clear();
        proof {
            use_type_invariant(&self.index);
        }
        assert(self.files() =~= Map::<Seq<char>, Seq<u8>>::empty());
    }

    /// Stores `data` as file `filename` (replacing an earlier file of that
    /// name) when the running context weighs at least `MIN_WEIGHT_FS_WRITE`
    /// and the free space holds it; answers the number of bytes written.
    pub fn write_file(&mut self, ctx: &mut TsContext, filename: &str, data: &[u8]) -> (r: Result<usize, ()>)
        requires
            old(self).wf(),
        ensures
            final(self).wf(),
            final(self).capacity() == old(self).capacity(),
            r is Ok <==> current_weight(*old(ctx)) >= MIN_WEIGHT_FS_WRITE && old(self).used() + data@.len() <= old(self).capacity(),
            r matches Ok(n) ==> {
                &&& n == data@.len()
                &&& final(self).files() == old(self).files().insert(filename@, data@)
                &&& final(self).used() == old(self).used() + data@.len()
            },
            r is Err ==> *final(self) == *old(self),
            final(ctx).registry == old(ctx).registry,
            final(ctx).current == old(ctx).current,
            current_weight(*old(ctx)) >= MIN_WEIGHT_FS_WRITE ==> final(ctx).violations == old(ctx).violations,
            current_weight(*old(ctx)) < MIN_WEIGHT_FS_WRITE ==> refused(*old(ctx), *final(ctx), "fs write"@, MIN_WEIGHT_FS_WRITE),
    {
        if enforce_min_weight(ctx, "fs write", MIN_WEIGHT_FS_WRITE).is_err() {
            return Err(());
        }
        let len = data.len();
        if len > self.buffer.len() - self.next_offset {
            return Err(());
        }
        let offset = self.next_offset;
        let ghost old_files = self.files();
        let mut k: usize = 0;
        while k < len
            invariant
                0 <= k <= len,
                len == data@.len(),
                offset == self.next_offset,
                offset + len <= self.buffer.len(),
                self.buffer@.len() == old(self).buffer@.len(),
                forall|j: int| 0 <= j < offset ==> #[trigger] self.buffer@[j] == old(self).buffer@[j],
                forall|j: int| 0 <= j < k ==> #[trigger] self.buffer@[offset + j] == data@[j],
                self.index == old(self).index,
                self.next_offset == old(self).next_offset,
            decreases len - k,
        {
            self.buffer.set(offset + k, data[k]);
            k = k + 1;
        }
        self.next_offset = offset + len;
        let ghost mid_index = self.index@;
        self.index.insert(filename.to_owned(), FileEntry { offset, len });
        proof {
            use_type_invariant(&self.index);
            assert forall|f: Seq<char>| #[trigger] old(self).index@.dom().contains(f) implies
                self.buffer@.subrange(old(self).index@[f].offset as int, old(self).index@[f].offset + old(self).index@[f].len)
                =~= old(self).buffer@.subrange(old(self).index@[f].offset as int, old(self).index@[f].offset + old(self).index@[f].len) by {}
            assert forall|j: int| 0 <= j < len implies #[trigger] self.buffer@.subrange(offset as int, offset + len)[j] == data@[j] by {
                assert(self.buffer@[offset + j] == data@[j]);
            }
            assert(self.buffer@.subrange(offset as int, offset + len) =~= data@);
            assert(self.files() =~= old_files.insert(filename@, data@));
        }
        Ok(len)
    }

    /// The contents of file `filename`, when the running context weighs at
    /// least `MIN_WEIGHT_FS_READ` and the file exists.
    pub fn read_file(&self, ctx: &mut TsContext, filename: &str) -> (r: Option<Vec<u8>>)
        requires
            self.wf(),
        ensures
            r is Some <==> current_weight(*old(ctx)) >= MIN_WEIGHT_FS_READ && self.files().dom().contains(filename@),
            r matches Some(v) ==> v@ == self.files()[filename@],
            final(ctx).registry == old(ctx).registry,
            final(ctx).current == old(ctx).current,
            current_weight(*old(ctx)) >= MIN_WEIGHT_FS_READ ==> final(ctx).violations == old(ctx).violations,
            current_weight(*old(ctx)) < MIN_WEIGHT_FS_READ ==> refused(*old(ctx), *final(ctx), "fs read"@, MIN_WEIGHT_FS_READ),
    {
        if enforce_min_weight(ctx, "fs read", MIN_WEIGHT_FS_READ).is_err() {
            return None;
        }
        let entry = match self.index.get(filename) {
            Some(e) => *e,
            None => return None,
        };
        let mut out: Vec<u8> = Vec::new();
        let mut k: usize = 0;
        while k < entry.len
            invariant
                0 <= k <= entry.len,
                entry.offset + entry.len <= self.buffer.len(),
                out@ == self.buffer@.subrange(entry.offset as int, entry.offset + k),
            decreases entry.len - k,
        {
            out.push(self.buffer[entry.offset + k]);
            proof {
                assert(out@ =~= self.buffer@.subrange(entry.offset as int, entry.offset + k + 1));
            }
            k = k + 1;
        }
        Some(out)
    }

    /// The file names in increasing key order, when the running context
    /// weighs at least `MIN_WEIGHT_FS_LIST`; otherwise no names.
    pub fn list_files(&self, ctx: &mut TsContext) -> (r: Vec<String>)
        requires
            self.wf(),
        ensures
            current_weight(*old(ctx)) >= MIN_WEIGHT_FS_LIST ==> strings_view(r@) == self.names(),
            current_weight(*old(ctx)) < MIN_WEIGHT_FS_LIST ==> r@.len() == 0,
            final(ctx).registry == old(ctx).registry,
            final(ctx).current == old(ctx).current,
            current_weight(*old(ctx)) >= MIN_WEIGHT_FS_LIST ==> final(ctx).violations == old(ctx).violations,
            current_weight(*old(ctx)) < MIN_WEIGHT_FS_LIST ==> refused(*old(ctx), *final(ctx), "fs list"@, MIN_WEIGHT_FS_LIST),
    {
        if enforce_min_weight(ctx, "fs list", MIN_WEIGHT_FS_LIST).is_err() {
            return Vec::new();
        }
        let mut out: Vec<String> = Vec::new();
        let n = self.index.len();
        let mut i: usize = 0;
        while i < n
            invariant
                0 <= i <= n,
                n == self.names().len(),
                strings_view(out@) == self.names().take(i as int),
            decreases n - i,
        {
            let ghost ob = out@;
            out.push(self.index.key_at(i).clone());
            proof {
                assert(strings_view(out@) =~= strings_view(ob).push(self.names()[i as int]));
                assert(self.names().take(i + 1) =~= self.names().take(i as int).push(self.names()[i as int]));
            }
            i = i + 1;
        }
        proof {
            assert(self.names().take(n as int) =~= self.names());
        }
        out
    }
}

} // verus!

verus! {

/// A read gives back what the last write of that file wrote, and a write
/// leaves every other file as it was.
pub proof fn lemma_read_after_write(files: Map<Seq<char>, Seq<u8>>, name: Seq<char>, data: Seq<u8>, other: Seq<char>)
    ensures
        files.insert(name, data).dom().contains(name),
        files.insert(name, data)[name] == data,
        other != name ==> (files.insert(name, data).dom().contains(other) == files.dom().contains(other)),
        other != name && files.dom().contains(other) ==> files.insert(name, data)[other] == files[other],
{
}

} // verus!
