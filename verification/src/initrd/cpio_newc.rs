//! A writer of CPIO archives in the `newc` format.
//!
//! An entry is a header of 110 ASCII bytes, the name with a NUL behind it,
//! zeros up to a multiple of four, the data, and zeros up to a multiple of
//! four. An entry named `TRAILER!!!` ends the archive.
use vstd::prelude::*;
use vstd::utf8::*;

verus! {

/// The file type of a regular file in the mode field.
pub const S_IFREG: u32 = 0o100000;

/// The file type of a directory.
pub const S_IFDIR: u32 = 0o040000;

/// The file type of a symbolic link.
pub const S_IFLNK: u32 = 0o120000;

/// One entry of an archive.
#[derive(Debug)]
pub struct CpioEntry {
    /// Path inside the archive, without a slash at its start.
    pub path: String,
    /// What the entry is, with its data.
    pub kind: CpioKind,
    /// Permission bits; only the lower twelve count.
    pub mode: u32,
    /// Owner.
    pub uid: u32,
    /// Group.
    pub gid: u32,
    /// Time of modification, in seconds since the epoch.
    pub mtime: u32,
}

/// What a [`CpioEntry`] is.
#[derive(Debug)]
pub enum CpioKind {
    /// A regular file with its bytes.
    File(Vec<u8>),
    /// A directory.
    Directory,
    /// A symbolic link with its target.
    Symlink(String),
}

impl Default for CpioKind {
    fn default() -> (r: Self)
        ensures
            r == CpioKind::Directory,
    {
        CpioKind::Directory
    }
}

impl Default for CpioEntry {
    fn default() -> (r: Self)
        ensures
            r.path@ == Seq::<char>::empty(),
            r.kind == CpioKind::Directory,
            r.mode == 0,
            r.uid == 0,
            r.gid == 0,
            r.mtime == 0,
    {
        CpioEntry {
            path: String::new(),
            kind: CpioKind::Directory,
            mode: 0,
            uid: 0,
            gid: 0,
            mtime: 0,
        }
    }
}

/// The upper-case hexadecimal digit of a number below sixteen.
pub open spec fn hex_byte(d: nat) -> u8 {
    if d < 10 {
        (48 + d) as u8
    } else {
        (55 + d) as u8
    }
}

/// The lowest `n` hexadecimal digits of `v`, the highest first.
pub open spec fn hex_field(v: nat, n: nat) -> Seq<u8>
    decreases n,
{
    if n == 0 {
        Seq::empty()
    } else {
        hex_field(v / 16, (n - 1) as nat).push(hex_byte(v % 16))
    }
}

/// Zeros that fill `len` up to a multiple of four.
pub open spec fn padding(len: nat) -> Seq<u8> {
    Seq::new(((4 - len % 4) % 4) as nat, |i: int| 0u8)
}

/// `s`, filled up to a multiple of four with zeros.
pub open spec fn padded(s: Seq<u8>) -> Seq<u8> {
    s + padding(s.len())
}

/// The header of an entry.
#[verifier::opaque]
pub open spec fn header(
    ino: u32,
    mode: u32,
    uid: u32,
    gid: u32,
    nlink: u32,
    mtime: u32,
    filesize: u32,
    namesize: u32,
) -> Seq<u8> {
    seq![48u8, 55u8, 48u8, 55u8, 48u8, 49u8] + hex_field(ino as nat, 8) + hex_field(mode as nat, 8)
        + hex_field(uid as nat, 8) + hex_field(gid as nat, 8) + hex_field(nlink as nat, 8)
        + hex_field(mtime as nat, 8) + hex_field(filesize as nat, 8) + hex_field(0, 8) + hex_field(
        0,
        8,
    ) + hex_field(0, 8) + hex_field(0, 8) + hex_field(namesize as nat, 8) + hex_field(0, 8)
}

/// The model of a [`CpioKind`].
#[verifier::ext_equal]
pub enum KindView {
    /// A regular file with its bytes.
    File(Seq<u8>),
    /// A directory.
    Directory,
    /// A symbolic link with its target.
    Symlink(Seq<char>),
}

/// The model of a [`CpioEntry`].
#[verifier::ext_equal]
pub struct EntryView {
    /// Path inside the archive.
    pub path: Seq<char>,
    /// What the entry is.
    pub kind: KindView,
    /// Permission bits.
    pub mode: u32,
    /// Owner.
    pub uid: u32,
    /// Group.
    pub gid: u32,
    /// Time of modification.
    pub mtime: u32,
}

impl View for CpioKind {
    type V = KindView;

    open spec fn view(&self) -> KindView {
        match *self {
            CpioKind::File(bytes) => KindView::File(bytes@),
            CpioKind::Directory => KindView::Directory,
            CpioKind::Symlink(target) => KindView::Symlink(target@),
        }
    }
}

impl View for CpioEntry {
    type V = EntryView;

    open spec fn view(&self) -> EntryView {
        EntryView {
            path: self.path@,
            kind: self.kind@,
            mode: self.mode,
            uid: self.uid,
            gid: self.gid,
            mtime: self.mtime,
        }
    }
}

impl EntryView {
    /// The bytes of the name.
    pub open spec fn name(self) -> Seq<u8> {
        encode_utf8(self.path)
    }

    /// The data: the bytes of a file, the target of a link.
    pub open spec fn data(self) -> Seq<u8> {
        match self.kind {
            KindView::File(bytes) => bytes,
            KindView::Directory => Seq::empty(),
            KindView::Symlink(target) => encode_utf8(target),
        }
    }

    /// The mode field: the file type and the permission bits.
    pub open spec fn mode_field(self) -> u32 {
        (match self.kind {
            KindView::File(_) => S_IFREG,
            KindView::Directory => S_IFDIR,
            KindView::Symlink(_) => S_IFLNK,
        } + self.mode % 0o10000) as u32
    }

    /// The number of links: two for a directory.
    pub open spec fn nlink(self) -> u32 {
        if self.kind is Directory {
            2
        } else {
            1
        }
    }

    /// The header of the entry, under the inode number `ino`.
    pub open spec fn header_bytes(self, ino: u32) -> Seq<u8> {
        header(
            ino,
            self.mode_field(),
            self.uid,
            self.gid,
            self.nlink(),
            self.mtime,
            self.data().len() as u32,
            (self.name().len() + 1) as u32,
        )
    }

    /// The entry in the archive, under the inode number `ino`.
    pub open spec fn bytes(self, ino: u32) -> Seq<u8> {
        padded(self.header_bytes(ino) + self.name() + seq![0u8]) + padded(self.data())
    }
}

/// The entry that ends an archive.
pub open spec fn trailer() -> Seq<u8> {
    padded(header(0, 0, 0, 0, 1, 0, 0, 11) + encode_utf8("TRAILER!!!"@) + seq![0u8])
}

/// The entries one after another, numbered from one.
pub open spec fn body(entries: Seq<EntryView>) -> Seq<u8>
    decreases entries.len(),
{
    if entries.len() == 0 {
        Seq::empty()
    } else {
        body(entries.drop_last()) + entries.last().bytes(entries.len() as u32)
    }
}

/// The archive of the entries.
pub open spec fn archive(entries: Seq<EntryView>) -> Seq<u8> {
    body(entries) + trailer()
}

/// Collects entries and writes the archive.
#[derive(Debug)]
pub struct CpioWriter {
    entries: Vec<CpioEntry>,
}

impl View for CpioWriter {
    type V = Seq<EntryView>;

    /// The entries added so far.
    closed spec fn view(&self) -> Seq<EntryView> {
        self.entries@.map_values(|e: CpioEntry| e@)
    }
}

impl Default for CpioWriter {
    fn default() -> (r: Self)
        ensures
            r@ == Seq::<EntryView>::empty(),
    {
        CpioWriter::new()
    }
}

impl CpioWriter {
    /// An archive without entries.
    pub fn new() -> (r: Self)
        ensures
            r@ == Seq::<EntryView>::empty(),
    {
        let r = CpioWriter { entries: Vec::new() };
        assert(r@ =~= Seq::<EntryView>::empty());
        r
    }

    /// Adds an entry behind those added before.
    pub fn push(&mut self, entry: CpioEntry)
        ensures
            final(self)@ == old(self)@.push(entry@),
    {
        self.entries.push(entry);
        assert(self@ =~= old(self)@.push(entry@));
    }

    /// The archive. Entries are numbered from one, in the 32 bits of an inode
    /// number.
    pub fn finish(self) -> (r: Vec<u8>)
        ensures
            r@ == archive(self@),
    {
        let mut out: Vec<u8> = Vec::new();
        let ghost all = self@;
        let mut i: usize = 0;
        assert(all.take(0) =~= Seq::<EntryView>::empty());
        while i < self.entries.len()
            invariant
                i <= self.entries@.len(),
                all == self.entries@.map_values(|e: CpioEntry| e@),
                out@ == body(all.take(i as int)),
                out@.len() % 4 == 0,
            decreases self.entries.len() - i,
        {
            let ino: u32 = #[verifier::truncate]
            ((i as u128 + 1) as u32);
            proof {
                assert(all.take(i as int + 1).drop_last() =~= all.take(i as int));
                assert(all.take(i as int + 1).last() == all[i as int]);
            }
            write_entry(&mut out, ino, &self.entries[i]);
            i += 1;
        }
        assert(all.take(i as int) =~= all);
        write_trailer(&mut out);
        out
    }
}

/// Appends the bytes.
fn append_bytes(out: &mut Vec<u8>, bytes: &[u8])
    ensures
        final(out)@ == old(out)@ + bytes@,
{
    let ghost before = out@;
    out.extend_from_slice(bytes);
    assert(out@ =~= before + bytes@);
}

fn push_hex(out: &mut Vec<u8>, value: u32)
    ensures
        final(out)@ == old(out)@ + hex_field(value as nat, 8),
{
    push_hex_digits(out, value, 8);
}

fn push_hex_digits(out: &mut Vec<u8>, value: u32, n: u32)
    ensures
        final(out)@ == old(out)@ + hex_field(value as nat, n as nat),
    decreases n,
{
    if n == 0 {
        assert(out@ =~= out@ + hex_field(value as nat, 0));
    } else {
        push_hex_digits(out, value / 16, n - 1);
        let d: u8 = (value % 16) as u8;
        let c: u8 = if d < 10 {
            48 + d
        } else {
            55 + d
        };
        let ghost before = out@;
        out.push(c);
        assert(out@ =~= old(out)@ + hex_field(value as nat, n as nat));
    }
}

fn pad_to_4(out: &mut Vec<u8>)
    ensures
        final(out)@ == old(out)@ + padding(old(out)@.len()),
        final(out)@.len() % 4 == 0,
{
    let pad: usize = (4 - out.len() % 4) % 4;
    let ghost before = out@;
    let mut i: usize = 0;
    while i < pad
        invariant
            i <= pad,
            out@ == before + Seq::new(i as nat, |j: int| 0u8),
        decreases pad - i,
    {
        out.push(0);
        i += 1;
        assert(out@ =~= before + Seq::new(i as nat, |j: int| 0u8));
    }
}

fn write_header(
    out: &mut Vec<u8>,
    ino: u32,
    mode: u32,
    uid: u32,
    gid: u32,
    nlink: u32,
    mtime: u32,
    filesize: u32,
    namesize: u32,
)
    ensures
        final(out)@ == old(out)@ + header(ino, mode, uid, gid, nlink, mtime, filesize, namesize),
{
    reveal(header);
    let ghost before = out@;
    out.push(48);
    out.push(55);
    out.push(48);
    out.push(55);
    out.push(48);
    out.push(49);
    assert(out@ =~= before + seq![48u8, 55u8, 48u8, 55u8, 48u8, 49u8]);
    push_hex(out, ino);
    push_hex(out, mode);
    push_hex(out, uid);
    push_hex(out, gid);
    push_hex(out, nlink);
    push_hex(out, mtime);
    push_hex(out, filesize);
    push_hex(out, 0);
    push_hex(out, 0);
    push_hex(out, 0);
    push_hex(out, 0);
    push_hex(out, namesize);
    push_hex(out, 0);
    assert(out@ =~= before + header(ino, mode, uid, gid, nlink, mtime, filesize, namesize));
}

/// The fields of a header fill 110 bytes.
pub proof fn lemma_header_len(
    ino: u32,
    mode: u32,
    uid: u32,
    gid: u32,
    nlink: u32,
    mtime: u32,
    filesize: u32,
    namesize: u32,
)
    ensures
        header(ino, mode, uid, gid, nlink, mtime, filesize, namesize).len() == 110,
{
    reveal(header);
    lemma_hex_len(ino as nat, 8);
    lemma_hex_len(mode as nat, 8);
    lemma_hex_len(uid as nat, 8);
    lemma_hex_len(gid as nat, 8);
    lemma_hex_len(nlink as nat, 8);
    lemma_hex_len(mtime as nat, 8);
    lemma_hex_len(filesize as nat, 8);
    lemma_hex_len(0, 8);
    lemma_hex_len(namesize as nat, 8);
}

proof fn lemma_hex_len(v: nat, n: nat)
    ensures
        hex_field(v, n).len() == n,
    decreases n,
{
    if n > 0 {
        lemma_hex_len(v / 16, (n - 1) as nat);
    }
}

fn write_entry(out: &mut Vec<u8>, ino: u32, entry: &CpioEntry)
    requires
        old(out)@.len() % 4 == 0,
    ensures
        final(out)@ == old(out)@ + entry@.bytes(ino),
        final(out)@.len() % 4 == 0,
{
    let ghost start = out@;
    let filetype: u32 = match &entry.kind {
        CpioKind::File(_) => S_IFREG,
        CpioKind::Directory => S_IFDIR,
        CpioKind::Symlink(_) => S_IFLNK,
    };
    let payload: &[u8] = match &entry.kind {
        CpioKind::File(bytes) => bytes.as_slice(),
        CpioKind::Directory => &[],
        CpioKind::Symlink(target) => target.as_str().as_bytes(),
    };
    let nlink: u32 = match &entry.kind {
        CpioKind::Directory => 2,
        _ => 1,
    };
    let mode: u32 = filetype | (entry.mode & 0o7777);
    let m: u32 = entry.mode;
    assert(mode == filetype + m % 0o10000) by (bit_vector)
        requires
            mode == filetype | (m & 0o7777),
            filetype == 0o100000 || filetype == 0o040000 || filetype == 0o120000,
    ;
    let name: &[u8] = entry.path.as_str().as_bytes();
    assert(payload@ =~= entry@.data());
    let filesize: u32 = #[verifier::truncate]
    (payload.len() as u32);
    let namesize: u32 = #[verifier::truncate]
    ((name.len() as u128 + 1) as u32);
    let ghost head = header(
        ino,
        mode,
        entry.uid,
        entry.gid,
        nlink,
        entry.mtime,
        filesize,
        namesize,
    );
    write_header(out, ino, mode, entry.uid, entry.gid, nlink, entry.mtime, filesize, namesize);
    append_bytes(out, name);
    out.push(0);
    proof {
        lemma_append_three(start, head, name@, 0);
        lemma_padding(start, head + name@ + seq![0u8]);
    }
    pad_to_4(out);
    let ghost middle = out@;
    append_bytes(out, payload);
    proof {
        lemma_padding(middle, payload@);
    }
    pad_to_4(out);
    assert(out@ == middle + padded(entry@.data()));
    assert(out@ =~= start + (padded(head + name@ + seq![0u8]) + padded(entry@.data())));
}

proof fn lemma_append_three(start: Seq<u8>, a: Seq<u8>, b: Seq<u8>, c: u8)
    ensures
        (start + a + b).push(c) == start + (a + b + seq![c]),
{
    assert((start + a + b).push(c) =~= start + (a + b + seq![c]));
}

proof fn lemma_padding(start: Seq<u8>, s: Seq<u8>)
    requires
        start.len() % 4 == 0,
    ensures
        start + s + padding((start + s).len()) == start + padded(s),
{
    assert(padding((start + s).len()) =~= padding(s.len()));
    assert(start + s + padding(s.len()) =~= start + padded(s));
}

fn write_trailer(out: &mut Vec<u8>)
    requires
        old(out)@.len() % 4 == 0,
    ensures
        final(out)@ == old(out)@ + trailer(),
        final(out)@.len() % 4 == 0,
{
    let ghost start = out@;
    write_header(out, 0, 0, 0, 0, 1, 0, 0, 11);
    append_bytes(out, "TRAILER!!!".as_bytes());
    out.push(0);
    proof {
        let head = header(0, 0, 0, 0, 1, 0, 0, 11);
        let name = encode_utf8("TRAILER!!!"@);
        lemma_append_three(start, head, name, 0);
        lemma_padding(start, head + name + seq![0u8]);
    }
    pad_to_4(out);
}

/// What a reader of an archive sees of an entry.
#[verifier::ext_equal]
pub struct Node {
    /// The name.
    pub name: Seq<u8>,
    /// The mode field.
    pub mode: nat,
    /// The owner.
    pub uid: nat,
    /// The group.
    pub gid: nat,
    /// The number of links.
    pub nlink: nat,
    /// The time of modification.
    pub mtime: nat,
    /// The data.
    pub data: Seq<u8>,
}

/// The number that upper-case hexadecimal digits write.
pub open spec fn hex_value(s: Seq<u8>) -> nat
    decreases s.len(),
{
    if s.len() == 0 {
        0
    } else {
        hex_value(s.drop_last()) * 16 + if s.last() < 58 {
            (s.last() - 48) as nat
        } else {
            (s.last() - 55) as nat
        }
    }
}

/// `n` rounded up to a multiple of four.
pub open spec fn aligned(n: nat) -> nat {
    n + ((4 - n % 4) % 4) as nat
}

/// The number in the header field that starts `offset` bytes into the entry at
/// `pos`.
pub open spec fn field_at(bytes: Seq<u8>, pos: int, offset: int) -> nat {
    hex_value(bytes.subrange(pos + offset, pos + offset + 8))
}

/// The size of the name, with the NUL behind it, of the entry at `pos`.
pub open spec fn name_size(bytes: Seq<u8>, pos: int) -> nat {
    field_at(bytes, pos, 94)
}

/// The size of the data of the entry at `pos`.
pub open spec fn data_size(bytes: Seq<u8>, pos: int) -> nat {
    field_at(bytes, pos, 54)
}

/// Where the data of the entry at `pos` starts.
pub open spec fn data_start(bytes: Seq<u8>, pos: int) -> int {
    pos + aligned(110 + name_size(bytes, pos))
}

/// Where the entry after the one at `pos` starts.
pub open spec fn next_entry(bytes: Seq<u8>, pos: int) -> int {
    data_start(bytes, pos) + aligned(data_size(bytes, pos))
}

/// The entry at `pos`.
pub open spec fn node_at(bytes: Seq<u8>, pos: int) -> Node {
    Node {
        name: bytes.subrange(pos + 110, pos + 110 + name_size(bytes, pos) - 1),
        mode: field_at(bytes, pos, 14),
        uid: field_at(bytes, pos, 22),
        gid: field_at(bytes, pos, 30),
        nlink: field_at(bytes, pos, 38),
        mtime: field_at(bytes, pos, 46),
        data: bytes.subrange(
            data_start(bytes, pos),
            data_start(bytes, pos) + data_size(bytes, pos),
        ),
    }
}

/// The entries from `pos` on, up to the trailer.
pub open spec fn read_from(bytes: Seq<u8>, pos: int) -> Seq<Node>
    decreases bytes.len() - pos,
{
    if pos < 0 || bytes.len() < pos + 110 || bytes.len() < next_entry(bytes, pos) || node_at(
        bytes,
        pos,
    ).name == encode_utf8("TRAILER!!!"@) {
        Seq::empty()
    } else {
        seq![node_at(bytes, pos)] + read_from(bytes, next_entry(bytes, pos))
    }
}

/// Where a reader that starts at `pos` stops: behind the trailer, or where no
/// whole entry is left.
pub open spec fn read_end(bytes: Seq<u8>, pos: int) -> int
    decreases bytes.len() - pos,
{
    if pos < 0 || bytes.len() < pos + 110 || bytes.len() < next_entry(bytes, pos) {
        pos
    } else if node_at(bytes, pos).name == encode_utf8("TRAILER!!!"@) {
        next_entry(bytes, pos)
    } else {
        read_end(bytes, next_entry(bytes, pos))
    }
}

impl EntryView {
    /// What a reader is to see of the entry.
    pub open spec fn node(self) -> Node {
        Node {
            name: self.name(),
            mode: self.mode_field() as nat,
            uid: self.uid as nat,
            gid: self.gid as nat,
            nlink: self.nlink() as nat,
            mtime: self.mtime as nat,
            data: self.data(),
        }
    }

    /// Do the sizes of the entry fit into their 32-bit fields, and is its name
    /// not that of the trailer?
    pub open spec fn representable(self) -> bool {
        &&& self.data().len() <= u32::MAX
        &&& self.name().len() < u32::MAX
        &&& self.name() != encode_utf8("TRAILER!!!"@)
    }
}

spec fn pow16(n: nat) -> nat
    decreases n,
{
    if n == 0 {
        1
    } else {
        16 * pow16((n - 1) as nat)
    }
}

proof fn lemma_hex_value(v: nat, n: nat)
    requires
        v < pow16(n),
    ensures
        hex_value(hex_field(v, n)) == v,
    decreases n,
{
    if n > 0 {
        lemma_hex_value(v / 16, (n - 1) as nat);
        let f = hex_field(v, n);
        assert(f.drop_last() =~= hex_field(v / 16, (n - 1) as nat));
        assert(f.last() == hex_byte(v % 16));
    }
}

proof fn lemma_hex_u32(v: u32)
    ensures
        hex_value(hex_field(v as nat, 8)) == v,
{
    assert(pow16(8) == 0x1_0000_0000) by {
        reveal_with_fuel(pow16, 9);
    }
    lemma_hex_value(v as nat, 8);
}

proof fn lemma_header_fields(
    ino: u32,
    mode: u32,
    uid: u32,
    gid: u32,
    nlink: u32,
    mtime: u32,
    filesize: u32,
    namesize: u32,
)
    ensures
        ({
            let h = header(ino, mode, uid, gid, nlink, mtime, filesize, namesize);
            &&& h.len() == 110
            &&& h.subrange(14, 22) == hex_field(mode as nat, 8)
            &&& h.subrange(22, 30) == hex_field(uid as nat, 8)
            &&& h.subrange(30, 38) == hex_field(gid as nat, 8)
            &&& h.subrange(38, 46) == hex_field(nlink as nat, 8)
            &&& h.subrange(46, 54) == hex_field(mtime as nat, 8)
            &&& h.subrange(54, 62) == hex_field(filesize as nat, 8)
            &&& h.subrange(94, 102) == hex_field(namesize as nat, 8)
        }),
{
    lemma_header_len(ino, mode, uid, gid, nlink, mtime, filesize, namesize);
    reveal(header);
    lemma_hex_len(ino as nat, 8);
    lemma_hex_len(mode as nat, 8);
    lemma_hex_len(uid as nat, 8);
    lemma_hex_len(gid as nat, 8);
    lemma_hex_len(nlink as nat, 8);
    lemma_hex_len(mtime as nat, 8);
    lemma_hex_len(filesize as nat, 8);
    lemma_hex_len(0, 8);
    lemma_hex_len(namesize as nat, 8);
    let h = header(ino, mode, uid, gid, nlink, mtime, filesize, namesize);
    assert(h.subrange(14, 22) =~= hex_field(mode as nat, 8));
    assert(h.subrange(22, 30) =~= hex_field(uid as nat, 8));
    assert(h.subrange(30, 38) =~= hex_field(gid as nat, 8));
    assert(h.subrange(38, 46) =~= hex_field(nlink as nat, 8));
    assert(h.subrange(46, 54) =~= hex_field(mtime as nat, 8));
    assert(h.subrange(54, 62) =~= hex_field(filesize as nat, 8));
    assert(h.subrange(94, 102) =~= hex_field(namesize as nat, 8));
}

proof fn lemma_field(before: Seq<u8>, h: Seq<u8>, rest: Seq<u8>, offset: int)
    requires
        0 <= offset,
        offset + 8 <= h.len(),
    ensures
        field_at(before + h + rest, before.len() as int, offset) == hex_value(
            h.subrange(offset, offset + 8),
        ),
{
    let pos = before.len() as int;
    assert((before + h + rest).subrange(pos + offset, pos + offset + 8) =~= h.subrange(
        offset,
        offset + 8,
    ));
}

/// The numbers in the header of an entry read back as what was written.
proof fn lemma_read_header(before: Seq<u8>, e: EntryView, ino: u32, rest: Seq<u8>)
    requires
        e.data().len() <= u32::MAX,
        e.name().len() < u32::MAX,
    ensures
        ({
            let h = e.header_bytes(ino);
            let all = before + h + rest;
            let pos = before.len() as int;
            &&& h.len() == 110
            &&& field_at(all, pos, 14) == e.mode_field()
            &&& field_at(all, pos, 22) == e.uid
            &&& field_at(all, pos, 30) == e.gid
            &&& field_at(all, pos, 38) == e.nlink()
            &&& field_at(all, pos, 46) == e.mtime
            &&& data_size(all, pos) == e.data().len()
            &&& name_size(all, pos) == e.name().len() + 1
        }),
{
    let filesize = e.data().len() as u32;
    let namesize = (e.name().len() + 1) as u32;
    let h = e.header_bytes(ino);
    lemma_header_fields(
        ino,
        e.mode_field(),
        e.uid,
        e.gid,
        e.nlink(),
        e.mtime,
        filesize,
        namesize,
    );
    lemma_hex_u32(e.mode_field());
    lemma_hex_u32(e.uid);
    lemma_hex_u32(e.gid);
    lemma_hex_u32(e.nlink());
    lemma_hex_u32(e.mtime);
    lemma_hex_u32(filesize);
    lemma_hex_u32(namesize);
    lemma_field(before, h, rest, 14);
    lemma_field(before, h, rest, 22);
    lemma_field(before, h, rest, 30);
    lemma_field(before, h, rest, 38);
    lemma_field(before, h, rest, 46);
    lemma_field(before, h, rest, 54);
    lemma_field(before, h, rest, 94);
}

/// An entry reads back as what was written, wherever in the archive it stands.
proof fn lemma_read_entry(before: Seq<u8>, e: EntryView, ino: u32, after: Seq<u8>)
    requires
        e.data().len() <= u32::MAX,
        e.name().len() < u32::MAX,
    ensures
        node_at(before + e.bytes(ino) + after, before.len() as int) == e.node(),
        next_entry(before + e.bytes(ino) + after, before.len() as int) == before.len() + e.bytes(
            ino,
        ).len(),
        e.bytes(ino).len() >= 110,
        e.bytes(ino).len() % 4 == 0,
{
    let all = before + e.bytes(ino) + after;
    let pos = before.len() as int;
    let h = e.header_bytes(ino);
    let name = e.name();
    let data = e.data();
    let front = h + name + seq![0u8];
    let rest = lemma_layout(before, h, name, padding(front.len()), data, padding(data.len()), after);
    lemma_read_header(before, e, ino, rest);
    assert(padded(front).len() == aligned(front.len()));
    assert(padded(data).len() == aligned(data.len()));
    assert(data_start(all, pos) == pos + padded(front).len());
}

/// Where the name and the data of an entry stand.
proof fn lemma_layout(
    before: Seq<u8>,
    h: Seq<u8>,
    name: Seq<u8>,
    fill: Seq<u8>,
    data: Seq<u8>,
    end: Seq<u8>,
    after: Seq<u8>,
) -> (rest: Seq<u8>)
    ensures
        ({
            let all = before + ((h + name + seq![0u8] + fill) + (data + end)) + after;
            let at = before.len() + h.len();
            let start = at + name.len() + 1 + fill.len();
            &&& all == before + h + rest
            &&& all.subrange(at as int, (at + name.len()) as int) == name
            &&& all.subrange(start as int, (start + data.len()) as int) == data
        }),
{
    let rest = name + seq![0u8] + fill + data + end + after;
    let all = before + ((h + name + seq![0u8] + fill) + (data + end)) + after;
    let at = before.len() + h.len();
    let start = at + name.len() + 1 + fill.len();
    assert(all =~= before + h + rest);
    assert(all.subrange(at as int, (at + name.len()) as int) =~= name);
    assert(all.subrange(start as int, (start + data.len()) as int) =~= data);
    rest
}

/// A reader takes in an entry and goes on behind it.
proof fn lemma_read_step(before: Seq<u8>, e: EntryView, ino: u32, after: Seq<u8>)
    requires
        e.representable(),
    ensures
        ({
            let all = before + e.bytes(ino) + after;
            let pos = before.len() as int;
            let next = (before + e.bytes(ino)).len() as int;
            &&& read_from(all, pos) == seq![e.node()] + read_from(all, next)
            &&& read_end(all, pos) == read_end(all, next)
        }),
{
    lemma_read_entry(before, e, ino, after);
}

proof fn lemma_read_trailer(before: Seq<u8>)
    ensures
        read_from(before + trailer(), before.len() as int) == Seq::<Node>::empty(),
        read_end(before + trailer(), before.len() as int) == before.len() + trailer().len(),
        trailer().len() % 4 == 0,
{
    lemma_header_fields(0, 0, 0, 0, 1, 0, 0, 11);
    lemma_hex_u32(11);
    lemma_hex_u32(0);
    let h = header(0, 0, 0, 0, 1, 0, 0, 11);
    let all = before + trailer();
    let pos = before.len() as int;
    let name = encode_utf8("TRAILER!!!"@);
    assert(name.len() == 10) by {
        reveal_strlit("TRAILER!!!");
        is_ascii_chars_encode_utf8("TRAILER!!!"@);
    }
    assert(all.subrange(pos + 54, pos + 62) =~= h.subrange(54, 62));
    assert(all.subrange(pos + 94, pos + 102) =~= h.subrange(94, 102));
    assert(all.subrange(pos + 110, pos + 120) =~= name);
}

proof fn lemma_body_prefix(entries: Seq<EntryView>, i: int)
    requires
        0 <= i <= entries.len(),
    ensures
        body(entries.take(i)).is_prefix_of(body(entries)),
    decreases entries.len(),
{
    if i == entries.len() {
        assert(entries.take(i) =~= entries);
    } else {
        let front = entries.drop_last();
        assert(front.take(i) =~= entries.take(i));
        lemma_body_prefix(front, i);
    }
}

/// Where an entry stands in the archive.
proof fn lemma_archive_at(entries: Seq<EntryView>, i: int) -> (rest: Seq<u8>)
    requires
        0 <= i < entries.len(),
    ensures
        archive(entries) == body(entries.take(i)) + entries[i].bytes((i + 1) as u32) + rest,
        body(entries.take(i + 1)) == body(entries.take(i)) + entries[i].bytes((i + 1) as u32),
{
    let next = entries.take(i + 1);
    assert(next.drop_last() =~= entries.take(i));
    lemma_body_prefix(entries, i + 1);
    let rest = archive(entries).skip(body(next).len() as int);
    assert(archive(entries) =~= body(next) + rest);
    rest
}

proof fn lemma_read_rest(entries: Seq<EntryView>, i: int)
    requires
        0 <= i <= entries.len(),
        forall|j: int| 0 <= j < entries.len() ==> (#[trigger] entries[j]).representable(),
    ensures
        read_from(archive(entries), body(entries.take(i)).len() as int) == entries.skip(
            i,
        ).map_values(|e: EntryView| e.node()),
        read_end(archive(entries), body(entries.take(i)).len() as int) == archive(entries).len(),
    decreases entries.len() - i,
{
    if i == entries.len() {
        assert(entries.take(i) =~= entries);
        lemma_read_trailer(body(entries));
        assert(entries.skip(i).map_values(|e: EntryView| e.node()) =~= Seq::empty());
    } else {
        lemma_read_rest(entries, i + 1);
        let e = entries[i];
        let rest = lemma_archive_at(entries, i);
        assert(e.representable());
        lemma_read_step(body(entries.take(i)), e, (i + 1) as u32, rest);
        assert(entries.skip(i).map_values(|x: EntryView| x.node()) =~= seq![e.node()]
            + entries.skip(i + 1).map_values(|x: EntryView| x.node()));
    }
}

/// Reading an archive gives back what was written into it: the name, the mode,
/// the owner and group, the time and the data of every entry, in order. The
/// reader stops behind the trailer, and nothing follows there. Sizes are 32 bits
/// wide in the format, and the name of the trailer ends the archive, so no entry
/// may have it.
pub proof fn lemma_read_back(entries: Seq<EntryView>)
    requires
        forall|j: int| 0 <= j < entries.len() ==> (#[trigger] entries[j]).representable(),
    ensures
        read_from(archive(entries), 0) == entries.map_values(|e: EntryView| e.node()),
        read_end(archive(entries), 0) == archive(entries).len(),
{
    lemma_read_rest(entries, 0);
    assert(entries.take(0) =~= Seq::<EntryView>::empty());
    assert(entries.skip(0) =~= entries);
}

/// The length of an archive is a multiple of four.
pub proof fn lemma_archive_aligned(entries: Seq<EntryView>)
    ensures
        archive(entries).len() % 4 == 0,
{
    lemma_read_trailer(body(entries));
    lemma_body_aligned(entries);
}

proof fn lemma_body_aligned(entries: Seq<EntryView>)
    ensures
        body(entries).len() % 4 == 0,
    decreases entries.len(),
{
    if entries.len() > 0 {
        lemma_body_aligned(entries.drop_last());
    }
}

/// Every archive ends in the trailer, also one without entries.
pub proof fn lemma_archive_trailer(entries: Seq<EntryView>)
    ensures
        trailer().is_suffix_of(archive(entries)),
{
    assert(archive(entries).skip(body(entries).len() as int) =~= trailer());
}

} // verus!
