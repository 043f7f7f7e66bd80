//! The QEMU firmware configuration device: its file directory, and the DMA
//! commands that read and write its files.

use vstd::prelude::*;
use vstd::utf8::valid_utf8;
use vstd::string::StringSliceAdditionalSpecFns;
use crate::endian::{be_bytes_u32, be_bytes_u64, be_u16_at, be_u32_at, lemma_be_roundtrip, push_be_u32, push_be_u64, read_be_u16, read_be_u32};

verus! {

/// Offset of the DMA address register.
pub const DMA_OFFSET: usize = 16;
/// Offset of the selector register.
pub const SEL_OFFSET: usize = 8;
/// The item that holds the file directory.
pub const FILE_DIR_SELECTOR: u16 = 0x19;
/// Bytes in one directory entry.
pub const FILE_ENTRY_BYTES: usize = 64;
/// Bytes in a file name field.
pub const FILE_NAME_BYTES: usize = 56;

/// Control bits of a DMA command.
pub const DMA_ERROR: u32 = 1;
pub const DMA_READ: u32 = 2;
pub const DMA_SKIP: u32 = 4;
pub const DMA_SELECT: u32 = 8;
pub const DMA_WRITE: u32 = 16;

/// Why a fw_cfg transfer failed.
#[derive(Clone, Copy, Debug, PartialEq, Eq, Structural)]
pub enum Error {
    BadPointer,
    DmaError,
}

/// Whether `n` is the length of the NUL-terminated string at the start of
/// `s`: no NUL before `n`, and a NUL at `n` unless `s` ends there.
pub open spec fn is_name_len(s: Seq<u8>, n: int) -> bool {
    &&& 0 <= n <= s.len()
    &&& forall|j: int| 0 <= j < n ==> s[j] != 0
    &&& n < s.len() ==> s[n] == 0
}

/// The bytes of the NUL-terminated string at the start of `s`.
pub open spec fn name_of(s: Seq<u8>) -> Seq<u8> {
    s.take(choose|n: int| is_name_len(s, n))
}

/// The length of a NUL-terminated string is unique, so `name_of` takes it.
pub proof fn lemma_name_len_unique(s: Seq<u8>, n: int)
    requires
        is_name_len(s, n),
    ensures
        name_of(s) == s.take(n),
{
    let m = choose|m: int| is_name_len(s, m);
    assert(is_name_len(s, m));
    if m < n {
        assert(s[m] != 0);
    } else if n < m {
        assert(s[n] != 0);
    }
}

/// Interprets `v` as UTF-8 with `core::str::from_utf8`. The contract says
/// what the standard library documents: the bytes are accepted exactly when
/// they are valid UTF-8, and then the string holds those bytes.
#[verifier::external_body]
fn str_from_utf8(v: &[u8]) -> (r: Option<&str>)
    ensures
        match r {
            Some(s) => valid_utf8(v@) && s.spec_bytes() == v@,
            None => !valid_utf8(v@),
        },
{
    match core::str::from_utf8(v) {
        Ok(s) => Some(s),
        Err(_) => None,
    }
}

/// One entry of the fw_cfg file directory.
#[derive(Clone, Copy, Debug)]
pub struct FwCfgFile {
    size: u32,
    select: u16,
    reserved: u16,
    name: [u8; 56],
}

/// The directory entry held in the 64 bytes of `s` at `at`: size, selector
/// and a reserved field big-endian, then the 56-byte name.
pub open spec fn entry_fields(s: Seq<u8>, at: int) -> (u32, u16, u16, Seq<u8>) {
    (
        be_u32_at(s, at) as u32,
        be_u16_at(s, at + 4) as u16,
        be_u16_at(s, at + 6) as u16,
        s.subrange(at + 8, at + 64),
    )
}

impl FwCfgFile {
    pub closed spec fn fields(&self) -> (u32, u16, u16, Seq<u8>) {
        (self.size, self.select, self.reserved, self.name@)
    }

    /// The entry held in the 64 bytes of `bytes` at `at`.
    pub fn from_bytes(bytes: &[u8], at: usize) -> (r: Self)
        requires
            at + 64 <= bytes@.len(),
        ensures
            r.fields() == entry_fields(bytes@, at as int),
    {
        proof {
            assert(bytes@.len() == bytes.len());
        }
        let size = read_be_u32(bytes, at);
        let select = read_be_u16(bytes, at + 4);
        let reserved = read_be_u16(bytes, at + 6);
        let mut name = [0u8; 56];
        let mut i: usize = 0;
        while i < FILE_NAME_BYTES
            invariant
                i <= 56,
                at + 64 <= bytes@.len(),
                bytes@.len() <= usize::MAX,
                forall|j: int| 0 <= j < i ==> name@[j] == bytes@[at + 8 + j],
            decreases 56 - i,
        {
            name[i] = bytes[at + 8 + i];
            i = i + 1;
        }
        assert(name@ =~= bytes@.subrange(at + 8, at + 64));
        FwCfgFile { size, select, reserved, name }
    }

    /// Size of the file in bytes.
    pub fn size(&self) -> (r: u32)
        ensures
            r == self.fields().0,
    {
        self.size
    }

    /// Selector of the file.
    pub fn sel(&self) -> (r: u16)
        ensures
            r == self.fields().1,
    {
        self.select
    }

    /// The bytes of the name, up to the first NUL.
    pub fn name_bytes(&self) -> (r: &[u8])
        ensures
            r@ == name_of(self.fields().3),
    {
        let mut len: usize = 0;
        while len < FILE_NAME_BYTES
            invariant
                len <= 56,
                forall|j: int| 0 <= j < len ==> self.name@[j] != 0,
            ensures
                len <= 56,
                forall|j: int| 0 <= j < len ==> self.name@[j] != 0,
                len < 56 ==> self.name@[len as int] == 0,
            decreases 56 - len,
        {
            if self.name[len] == 0 {
                break;
            }
            len = len + 1;
        }
        proof {
            lemma_name_len_unique(self.name@, len as int);
        }
        let r = vstd::slice::slice_subrange(self.name.as_slice(), 0, len);
        assert(r@ =~= self.name@.take(len as int));
        r
    }

    /// The name, if its bytes up to the first NUL are valid UTF-8.
    pub fn name(&self) -> (r: Option<&str>)
        ensures
            match r {
                Some(s) => valid_utf8(name_of(self.fields().3)) && s.spec_bytes() == name_of(self.fields().3),
                None => !valid_utf8(name_of(self.fields().3)),
            },
    {
        str_from_utf8(self.name_bytes())
    }

    /// The DMA command that writes this file from the buffer at physical
    /// address `address`: select the file and write, over its whole size.
    pub fn write_packet(&self, address: u64) -> (r: Vec<u8>)
        ensures
            r@ == be_bytes_u32(dma_control_of(Some(self.fields().1), DMA_SELECT | DMA_WRITE))
                + be_bytes_u32(self.fields().0) + be_bytes_u64(address),
    {
        dma_packet(Some(self.sel()), DMA_SELECT | DMA_WRITE, self.size(), address)
    }

    /// The DMA command that reads this file into the buffer at physical
    /// address `address`: select the file and read, over its whole size.
    pub fn read_packet(&self, address: u64) -> (r: Vec<u8>)
        ensures
            r@ == be_bytes_u32(dma_control_of(Some(self.fields().1), DMA_SELECT | DMA_READ))
                + be_bytes_u32(self.fields().0) + be_bytes_u64(address),
    {
        dma_packet(Some(self.sel()), DMA_SELECT | DMA_READ, self.size(), address)
    }
}

/// Whether entry `f` is the file called `path`.
pub open spec fn names_file(f: FwCfgFile, path: &str) -> bool {
    valid_utf8(name_of(f.fields().3)) && name_of(f.fields().3) == path.spec_bytes()
}

fn bytes_eq(a: &[u8], b: &[u8]) -> (r: bool)
    ensures
        r == (a@ == b@),
{
    if a.len() != b.len() {
        return false;
    }
    let mut i: usize = 0;
    while i < a.len()
        invariant
            a@.len() == b@.len(),
            i <= a@.len(),
            forall|j: int| 0 <= j < i ==> a@[j] == b@[j],
        decreases a@.len() - i,
    {
        if a[i] != b[i] {
            return false;
        }
        i = i + 1;
    }
    assert(a@ =~= b@);
    true
}

/// The number of files in the directory, from the first four bytes the
/// device sends (big-endian).
pub fn directory_count(count_bytes: &[u8]) -> (r: u32)
    requires
        count_bytes@.len() >= 4,
    ensures
        r == be_u32_at(count_bytes@, 0),
{
    read_be_u32(count_bytes, 0)
}

/// The first `count` entries of the directory bytes `entries`.
pub fn parse_directory(count: u32, entries: &[u8]) -> (r: Vec<FwCfgFile>)
    requires
        count * 64 <= entries@.len(),
    ensures
        r@.len() == count,
        forall|i: int| 0 <= i < count ==> #[trigger] r@[i].fields() == entry_fields(entries@, 64 * i),
{
    let mut files: Vec<FwCfgFile> = Vec::new();
    let mut i: u32 = 0;
    while i < count
        invariant
            i <= count,
            count * 64 <= entries@.len(),
            files@.len() == i,
            forall|k: int| 0 <= k < i ==> #[trigger] files@[k].fields() == entry_fields(entries@, 64 * k),
        decreases count - i,
    {
        proof {
            assert(entries@.len() == entries.len());
        }
        assert((i as usize) * 64 + 64 <= count * 64) by (nonlinear_arith)
            requires i < count;
        let at = (i as usize) * FILE_ENTRY_BYTES;
        files.push(FwCfgFile::from_bytes(entries, at));
        i = i + 1;
    }
    files
}

/// The fw_cfg device at `location`, with its file directory once read.
pub struct FwCfg {
    location: usize,
    files: Option<Vec<FwCfgFile>>,
}

impl FwCfg {
    pub closed spec fn spec_location(&self) -> usize {
        self.location
    }

    pub closed spec fn spec_files(&self) -> Option<Seq<FwCfgFile>> {
        match self.files {
            Some(v) => Some(v@),
            None => None,
        }
    }

    /// The device whose registers start at `location`; its directory is
    /// not read yet.
    pub fn new(location: usize) -> (r: Self)
        ensures
            r.spec_location() == location,
            r.spec_files() is None,
    {
        FwCfg { location, files: None }
    }

    pub fn location(&self) -> (r: usize)
        ensures
            r == self.spec_location(),
    {
        self.location
    }

    /// The directory, if it has been read.
    pub fn files(&self) -> (r: Option<&Vec<FwCfgFile>>)
        ensures
            match r {
                Some(v) => self.spec_files() == Some(v@),
                None => self.spec_files() is None,
            },
    {
        match &self.files {
            Some(v) => Some(v),
            None => None,
        }
    }

    /// Records the directory read from the device: `count_bytes` is the
    /// count the device sends first, `entries` the entries that follow.
    /// A directory recorded earlier is kept, and the bytes are then not read.
    pub fn load_files(&mut self, count_bytes: &[u8], entries: &[u8])
        requires
            old(self).spec_files() is None ==> count_bytes@.len() >= 4,
            old(self).spec_files() is None ==> be_u32_at(count_bytes@, 0) * 64 <= entries@.len(),
        ensures
            final(self).spec_location() == old(self).spec_location(),
            old(self).spec_files() is Some ==> final(self).spec_files() == old(self).spec_files(),
            old(self).spec_files() is None ==> ({
                let f = final(self).spec_files().unwrap();
                &&& final(self).spec_files() is Some
                &&& f.len() == be_u32_at(count_bytes@, 0)
                &&& forall|i: int| 0 <= i < f.len() ==> #[trigger] f[i].fields() == entry_fields(entries@, 64 * i)
            }),
    {
        if self.files.is_none() {
            let count = directory_count(count_bytes);
            self.files = Some(parse_directory(count, entries));
        }
    }

    /// The first file of the directory called `path`; `None` when there is
    /// none or the directory has not been read.
    pub fn lookup(&self, path: &str) -> (r: Option<&FwCfgFile>)
        ensures
            match r {
                Some(f) => {
                    let fs = self.spec_files().unwrap();
                    &&& self.spec_files() is Some
                    &&& exists|i: int| 0 <= i < fs.len() && fs[i] == *f && names_file(*f, path)
                        && forall|j: int| 0 <= j < i ==> !names_file(#[trigger] fs[j], path)
                },
                None => self.spec_files() is None || forall|j: int|
                    0 <= j < self.spec_files().unwrap().len() ==> !names_file(#[trigger] self.spec_files().unwrap()[j], path),
            },
    {
        let files = match &self.files {
            Some(v) => v,
            None => return None,
        };
        let target = path.as_bytes();
        let mut i: usize = 0;
        while i < files.len()
            invariant
                self.spec_files() == Some(files@),
                target@ == path.spec_bytes(),
                i <= files@.len(),
                forall|j: int| 0 <= j < i ==> !names_file(#[trigger] files@[j], path),
            decreases files@.len() - i,
        {
            let f = &files[i];
            match f.name() {
                Some(n) => {
                    if bytes_eq(n.as_bytes(), target) {
                        let ghost fs = self.spec_files().unwrap();
                        assert(fs[i as int] == *f && names_file(*f, path));
                        assert(exists|k: int| 0 <= k < fs.len() && fs[k] == *f && names_file(*f, path)
                            && forall|j: int| 0 <= j < k ==> !names_file(#[trigger] fs[j], path));
                        return Some(f);
                    }
                },
                None => {},
            }
            i = i + 1;
        }
        None
    }
}

/// The control word of a DMA command: the selector in the upper half, the
/// command bits in the lower.
pub open spec fn dma_control_of(sel: Option<u16>, cmd: u32) -> u32 {
    let s: u16 = match sel {
        Some(s) => s,
        None => 0,
    };
    ((s as u32) << 16u32) | cmd
}

pub fn dma_control(sel: Option<u16>, cmd: u32) -> (r: u32)
    ensures
        r == dma_control_of(sel, cmd),
{
    let s: u16 = match sel {
        Some(s) => s,
        None => 0,
    };
    ((s as u32) << 16u32) | cmd
}

/// The control word carries the selector unchanged in its upper 16 bits and
/// the command in its lower 16 bits; without a selector it is the command
/// alone. The command bits are those of the fw_cfg DMA interface.
pub proof fn lemma_dma_control(s: u16, cmd: u32)
    requires
        cmd < 0x1_0000,
    ensures
        dma_control_of(Some(s), cmd) == s * 0x1_0000 + cmd,
        dma_control_of(Some(s), cmd) / 0x1_0000 == s,
        dma_control_of(Some(s), cmd) % 0x1_0000 == cmd,
        dma_control_of(None, cmd) == cmd,
        DMA_ERROR == 1 && DMA_READ == 2 && DMA_SKIP == 4 && DMA_SELECT == 8 && DMA_WRITE == 0x10,
        DMA_SELECT | DMA_WRITE == 0x18,
        DMA_SELECT | DMA_READ == 0x0a,
{
    assert(((s as u32) << 16u32) | cmd == s * 0x1_0000 + cmd) by (bit_vector)
        requires cmd < 0x1_0000;
    assert(((0u16 as u32) << 16u32) | cmd == cmd) by (bit_vector);
    assert(8u32 | 0x10u32 == 0x18u32 && 8u32 | 2u32 == 0x0au32) by (bit_vector);
}

/// The command a file's `write_packet` holds: its first four bytes, read
/// big-endian, are the file's selector times 0x1_0000 plus select-and-write
/// (0x18), the next four the file's size, the last eight the address.
/// `read_packet` differs only in the command, select-and-read (0x0a).
pub proof fn lemma_file_packets(f: FwCfgFile, address: u64)
    ensures
        ({
            let w = be_bytes_u32(dma_control_of(Some(f.fields().1), DMA_SELECT | DMA_WRITE))
                + be_bytes_u32(f.fields().0) + be_bytes_u64(address);
            let r = be_bytes_u32(dma_control_of(Some(f.fields().1), DMA_SELECT | DMA_READ))
                + be_bytes_u32(f.fields().0) + be_bytes_u64(address);
            &&& w.len() == 16 && r.len() == 16
            &&& be_u32_at(w, 0) == f.fields().1 * 0x1_0000 + 0x18
            &&& be_u32_at(r, 0) == f.fields().1 * 0x1_0000 + 0x0a
            &&& be_u32_at(w, 4) == f.fields().0 && be_u32_at(r, 4) == f.fields().0
            &&& w.subrange(8, 16) == be_bytes_u64(address) && r.subrange(8, 16) == be_bytes_u64(address)
        }),
{
    let sel = f.fields().1;
    let size = f.fields().0;
    lemma_dma_control(sel, 0);
    lemma_dma_control(sel, DMA_SELECT | DMA_WRITE);
    lemma_dma_control(sel, DMA_SELECT | DMA_READ);
    let cw = dma_control_of(Some(sel), DMA_SELECT | DMA_WRITE);
    let cr = dma_control_of(Some(sel), DMA_SELECT | DMA_READ);
    lemma_be_roundtrip(0, cw);
    lemma_be_roundtrip(0, cr);
    lemma_be_roundtrip(0, size);
    let w = be_bytes_u32(cw) + be_bytes_u32(size) + be_bytes_u64(address);
    let r = be_bytes_u32(cr) + be_bytes_u32(size) + be_bytes_u64(address);
    assert(w.subrange(0, 4) =~= be_bytes_u32(cw));
    assert(w.subrange(4, 8) =~= be_bytes_u32(size));
    assert(w.subrange(8, 16) =~= be_bytes_u64(address));
    assert(r.subrange(0, 4) =~= be_bytes_u32(cr));
    assert(r.subrange(4, 8) =~= be_bytes_u32(size));
    assert(r.subrange(8, 16) =~= be_bytes_u64(address));
}

/// The 16-byte DMA access record the device reads: control, length and
/// address, all big-endian.
pub fn dma_packet(sel: Option<u16>, cmd: u32, length: u32, address: u64) -> (r: Vec<u8>)
    ensures
        r@ == be_bytes_u32(dma_control_of(sel, cmd)) + be_bytes_u32(length) + be_bytes_u64(address),
        r@.len() == 16,
{
    let mut out: Vec<u8> = Vec::new();
    push_be_u32(&mut out, dma_control(sel, cmd));
    push_be_u32(&mut out, length);
    push_be_u64(&mut out, address);
    out
}

/// The state of a DMA command, read from its control word.
#[derive(Clone, Copy, Debug, PartialEq, Eq, Structural)]
pub enum DmaStatus {
    Failed,
    Done,
    Pending,
}

/// What the control word `ctrl` says of the command: the error bit means it
/// failed, zero means it is done, anything else that it is still running.
pub fn dma_status(ctrl: u32) -> (r: DmaStatus)
    ensures
        r == (if ctrl & 1 != 0 {
            DmaStatus::Failed
        } else if ctrl == 0 {
            DmaStatus::Done
        } else {
            DmaStatus::Pending
        }),
{
    if ctrl & 0x1 != 0 {
        DmaStatus::Failed
    } else if ctrl == 0 {
        DmaStatus::Done
    } else {
        DmaStatus::Pending
    }
}

/// Copies `buf` into the start of the DMA buffer `dma`, as far as `dma`
/// reaches; the bytes of `dma` past `buf` keep their values.
pub fn fill_dma_buffer(dma: &mut Vec<u8>, buf: &[u8])
    ensures
        final(dma)@.len() == old(dma)@.len(),
        forall|i: int|
            0 <= i < old(dma)@.len() ==> #[trigger] final(dma)@[i] == (if i < buf@.len() {
                buf@[i]
            } else {
                old(dma)@[i]
            }),
{
    let mut index: usize = 0;
    while index < dma.len()
        invariant
            dma@.len() == old(dma)@.len(),
            index <= dma@.len(),
            forall|i: int|
                0 <= i < dma@.len() ==> #[trigger] dma@[i] == (if i < index && i < buf@.len() {
                    buf@[i]
                } else {
                    old(dma)@[i]
                }),
        ensures
            dma@.len() == old(dma)@.len(),
            index >= buf@.len() || index == dma@.len(),
            index <= dma@.len(),
            forall|i: int|
                0 <= i < dma@.len() ==> #[trigger] dma@[i] == (if i < index && i < buf@.len() {
                    buf@[i]
                } else {
                    old(dma)@[i]
                }),
        decreases dma@.len() - index,
    {
        if index >= buf.len() {
            break;
        }
        dma.set(index, buf[index]);
        index = index + 1;
    }
}

} // verus!
