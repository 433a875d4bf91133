//! Tar-as-filesystem: octal field codec, ustar headers, and the in-memory
//! file cache that is loaded from and flushed to the block device.
//!
//! The on-disk image is a sequence of ustar records — a 512-byte header
//! followed by the file's `size` bytes padded to a sector boundary —
//! terminated by an all-zero header. A record's `size` field is NUL-
//! terminated octal; its `checksum` field decodes to the byte sum of the
//! header with the checksum field itself read as spaces.

use vstd::prelude::*;
use vstd::seq_lib::*;

use crate::address::{align_up, spec_align_up};
use crate::allocator::zeroed_bytes;
use crate::virtio::{read_write_disk, VirtioBlk, VirtioDevice, SECTOR_SIZE};

verus! {

pub const FILES_MAX: usize = 2;

/// Size of a ustar header.
pub const HEADER_BYTES: usize = 512;

/// Capacity of a file's data buffer.
pub const FILE_DATA_BYTES: usize = 1024;

/// Size of the in-memory disk buffer: room for `FILES_MAX` maximal records
/// plus a terminating all-zero sector.
pub const DISK_CAPACITY: usize = 3584;

/// One cached file.
pub struct File {
    pub in_use: bool,
    /// NUL-terminated name, 100 bytes.
    pub name: Vec<u8>,
    /// File contents, 1024 bytes; only the first `size` are meaningful.
    pub data: Vec<u8>,
    pub size: usize,
}

/// The mathematical contents of a file slot.
pub struct FileView {
    pub in_use: bool,
    pub name: Seq<u8>,
    pub data: Seq<u8>,
    pub size: nat,
}

impl View for File {
    type V = FileView;

    open spec fn view(&self) -> FileView {
        FileView {
            in_use: self.in_use,
            name: self.name@,
            data: self.data@,
            size: self.size as nat,
        }
    }
}

impl FileView {
    pub open spec fn wf(&self) -> bool {
        &&& self.name.len() == 100
        &&& self.data.len() == FILE_DATA_BYTES
        &&& self.size <= FILE_DATA_BYTES
        &&& self.in_use ==> self.name[0] != 0
    }
}

/// The all-zero file slot.
pub open spec fn zeroed_file_view() -> FileView {
    FileView {
        in_use: false,
        name: Seq::new(100nat, |i: int| 0u8),
        data: Seq::new(FILE_DATA_BYTES as nat, |i: int| 0u8),
        size: 0,
    }
}

impl File {
    pub open spec fn wf(&self) -> bool {
        self@.wf()
    }

    /// An empty, unused file slot.
    pub fn zeroed() -> (r: Self)
        ensures
            r.wf(),
            r@ == zeroed_file_view(),
    {
        let r = File {
            in_use: false,
            name: zeroed_bytes(100),
            data: zeroed_bytes(FILE_DATA_BYTES),
            size: 0,
        };
        proof {
            assert(r.name@ =~= zeroed_file_view().name);
            assert(r.data@ =~= zeroed_file_view().data);
        }
        r
    }
}

/// The in-memory file cache.
pub struct Files(pub Vec<File>);

impl Files {
    /// `FILES_MAX` well-formed slots, the in-use ones forming a prefix.
    pub open spec fn wf(&self) -> bool {
        &&& self.0.len() == FILES_MAX
        &&& forall|i: int| 0 <= i < FILES_MAX ==> (#[trigger] self.0[i]).wf()
        &&& forall|i: int|
            0 <= i < FILES_MAX - 1 && !(#[trigger] self.0[i]).in_use ==> !self.0[i + 1].in_use
    }

    /// The slots' mathematical contents.
    pub open spec fn views(&self) -> Seq<FileView> {
        Seq::new(self.0.len() as nat, |i: int| self.0[i]@)
    }

    /// A cache of empty slots.
    pub fn new() -> (r: Self)
        ensures
            r.wf(),
            forall|i: int| 0 <= i < FILES_MAX ==> (#[trigger] r.0[i])@ == zeroed_file_view(),
    {
        let mut v: Vec<File> = Vec::new();
        while v.len() < FILES_MAX
            invariant
                v.len() <= FILES_MAX,
                forall|i: int| 0 <= i < v.len() ==> (#[trigger] v[i])@ == zeroed_file_view(),
            decreases FILES_MAX - v.len(),
        {
            v.push(File::zeroed());
        }
        Files(v)
    }

    /// The index of the first file whose NUL-terminated name equals `name`,
    /// if any. Slots are compared whether or not they are in use, as names
    /// of unused slots are all-zero and match only the empty name.
    pub fn fs_lookup(&self, name: &[u8]) -> (r: Option<usize>)
        requires
            self.wf(),
        ensures
            r matches Some(i) ==> {
                &&& i < FILES_MAX
                &&& name_matches(self.0[i as int].name@, name@)
                &&& forall|j: int|
                    0 <= j < i ==> !name_matches((#[trigger] self.0[j]).name@, name@)
            },
            r is None ==> forall|j: int|
                0 <= j < FILES_MAX ==> !name_matches((#[trigger] self.0[j]).name@, name@),
    {
        let mut i: usize = 0;
        while i < FILES_MAX
            invariant
                self.wf(),
                i <= FILES_MAX,
                forall|j: int| 0 <= j < i ==> !name_matches((#[trigger] self.0[j]).name@, name@),
            decreases FILES_MAX - i,
        {
            if name_matches_exec(&self.0[i].name, name) {
                return Some(i);
            }
            i = i + 1;
        }
        None
    }
}

/// The bytes of `name` before its first NUL equal `q`.
pub open spec fn name_matches(name: Seq<u8>, q: Seq<u8>) -> bool {
    &&& q.len() < name.len()
    &&& name.subrange(0, q.len() as int) == q
    &&& name[q.len() as int] == 0
    &&& forall|m: int| 0 <= m < q.len() ==> name[m] != 0
}

/// Compares a NUL-terminated name field against a query.
fn name_matches_exec(name: &Vec<u8>, q: &[u8]) -> (r: bool)
    ensures
        r == name_matches(name@, q@),
{
    if q.len() >= name.len() {
        return false;
    }
    let mut m: usize = 0;
    while m < q.len()
        invariant
            q.len() < name.len(),
            m <= q.len(),
            forall|j: int| 0 <= j < m ==> name[j] == q[j] && #[trigger] name[j] != 0,
        decreases q.len() - m,
    {
        if name[m] != q[m] || name[m] == 0 {
            proof {
                if name[m as int] == q[m as int] && name[m as int] == 0 {
                    assert(!name_matches(name@, q@));
                } else {
                    assert(name@.subrange(0, q@.len() as int) != q@ || name@[m as int] != 0) by {
                        if name@[m as int] != q@[m as int] {
                            assert(name@.subrange(0, q@.len() as int)[m as int] != q@[m as int]);
                        }
                    }
                }
            }
            return false;
        }
        m = m + 1;
    }
    let tail = name[q.len()];
    proof {
        if tail == 0 {
            assert(name@.subrange(0, q@.len() as int) =~= q@);
        }
    }
    tail == 0
}

/// The ustar `mode` field: `"00000644"`.
pub open spec fn mode_seq() -> Seq<u8> {
    seq![48u8, 48u8, 48u8, 48u8, 48u8, 54u8, 52u8, 52u8]
}

/// The ustar magic: `"ustar\0"`.
pub open spec fn magic_seq() -> Seq<u8> {
    seq![117u8, 115u8, 116u8, 97u8, 114u8, 0u8]
}

/// The sum of a byte sequence.
pub open spec fn byte_sum(s: Seq<u8>) -> nat
    decreases s.len(),
{
    if s.len() == 0 {
        0
    } else {
        (byte_sum(s.drop_last()) + s.last()) as nat
    }
}

/// The byte sum is bounded by 255 per byte.
pub proof fn lemma_byte_sum_bound(s: Seq<u8>)
    ensures
        byte_sum(s) <= 255 * s.len(),
    decreases s.len(),
{
    if s.len() > 0 {
        lemma_byte_sum_bound(s.drop_last());
    }
}

/// Summing one more byte.
pub proof fn lemma_byte_sum_take(s: Seq<u8>, i: int)
    requires
        0 <= i < s.len(),
    ensures
        byte_sum(s.take(i + 1)) == byte_sum(s.take(i)) + s[i],
{
    assert(s.take(i + 1).drop_last() =~= s.take(i));
    assert(s.take(i + 1).last() == s[i]);
}

/// The header of `f` with its checksum field still holding spaces.
pub open spec fn header_pre(f: FileView) -> Seq<u8> {
    Seq::new(
        HEADER_BYTES as nat,
        |i: int|
            if 0 <= i < 100 {
                f.name[i]
            } else if 100 <= i < 108 {
                mode_seq()[i - 100]
            } else if 124 <= i < 136 {
                oct_seq(f.size, 11).push(0)[i - 124]
            } else if 148 <= i < 156 {
                32u8
            } else if i == 156 {
                48u8
            } else if 257 <= i < 263 {
                magic_seq()[i - 257]
            } else if 263 <= i < 265 {
                48u8
            } else {
                0u8
            },
    )
}

/// The checksum of `f`'s header: the byte sum over the header with the
/// checksum field read as spaces.
pub open spec fn header_checksum(f: FileView) -> nat {
    byte_sum(header_pre(f))
}

/// The finished header: the checksum field holds the checksum in octal.
pub open spec fn header_bytes(f: FileView) -> Seq<u8> {
    Seq::new(
        HEADER_BYTES as nat,
        |i: int|
            if 148 <= i < 156 {
                oct_seq(header_checksum(f), 7).push(0)[i - 148]
            } else {
                header_pre(f)[i]
            },
    )
}

/// A sequence with its checksum field replaced by spaces.
pub open spec fn with_space_checksum(h: Seq<u8>) -> Seq<u8> {
    Seq::new(
        h.len(),
        |i: int|
            if 148 <= i < 156 {
                32u8
            } else {
                h[i]
            },
    )
}

/// Builds the 512-byte ustar header for `f`: name copied verbatim, mode
/// `"00000644"`, magic `"ustar\0"`, version `"00"`, typeflag `'0'`, the size
/// in NUL-terminated octal, and the checksum of the header computed with
/// the checksum field as spaces, then stored in octal.
#[verifier::rlimit(100)]
#[verifier::loop_isolation(false)]
pub fn build_header(f: &File) -> (h: Vec<u8>)
    requires
        f.wf(),
    ensures
        h@ == header_bytes(f@),
        h.len() == HEADER_BYTES,
{
    let mut h = zeroed_bytes(HEADER_BYTES);

    // Name, copied verbatim.
    let mut i: usize = 0;
    while i < 100
        invariant
            i <= 100,
            h.len() == HEADER_BYTES,
            forall|j: int| 0 <= j < i ==> h[j] == f.name[j],
            forall|j: int| i <= j < HEADER_BYTES ==> h[j] == 0,
        decreases 100 - i,
    {
        let b = f.name[i];
        h.set(i, b);
        i = i + 1;
    }

    // Mode: read and write permissions.
    h.set(100, 48);
    h.set(101, 48);
    h.set(102, 48);
    h.set(103, 48);
    h.set(104, 48);
    h.set(105, 54);
    h.set(106, 52);
    h.set(107, 52);

    // Size, as NUL-terminated octal.
    let mut size_field = zeroed_bytes(12);
    int2oct(f.size, &mut size_field);
    proof {
        lemma_oct_seq_len(f.size as nat, 11);
    }
    let mut i: usize = 0;
    while i < 12
        invariant
            i <= 12,
            h.len() == HEADER_BYTES,
            size_field.len() == 12,
            forall|j: int| 0 <= j < 100 ==> h[j] == f.name[j],
            forall|j: int| 100 <= j < 108 ==> h[j] == mode_seq()[j - 100],
            forall|j: int| 124 <= j < 124 + i ==> h[j] == size_field[j - 124],
            forall|j: int| 124 + i <= j < HEADER_BYTES ==> h[j] == 0,
            forall|j: int| 108 <= j < 124 ==> h[j] == 0,
        decreases 12 - i,
    {
        let b = size_field[i];
        h.set(124 + i, b);
        i = i + 1;
    }

    // Typeflag: regular file.
    h.set(156, 48);

    // Magic and version.
    h.set(257, 117);
    h.set(258, 115);
    h.set(259, 116);
    h.set(260, 97);
    h.set(261, 114);
    h.set(262, 0);
    h.set(263, 48);
    h.set(264, 48);

    // Checksum field: spaces while the sum is taken.
    let mut i: usize = 148;
    while i < 156
        invariant
            148 <= i <= 156,
            h.len() == HEADER_BYTES,
            forall|j: int|
                0 <= j < HEADER_BYTES && !(148 <= j < 156) ==> h[j] == header_pre(f@)[j],
            forall|j: int| 148 <= j < i ==> h[j] == 32,
        decreases 156 - i,
    {
        h.set(i, 32);
        i = i + 1;
    }
    proof {
        assert(h@ =~= header_pre(f@));
    }

    // The checksum: the unsigned byte sum over the whole header.
    let mut checksum: usize = 0;
    let mut i: usize = 0;
    while i < HEADER_BYTES
        invariant
            i <= HEADER_BYTES,
            h@ == header_pre(f@),
            checksum == byte_sum(h@.take(i as int)),
            checksum <= 255 * i,
        decreases HEADER_BYTES - i,
    {
        proof {
            lemma_byte_sum_take(h@, i as int);
        }
        let b = h[i];
        checksum = checksum + b as usize;
        i = i + 1;
    }
    proof {
        assert(h@.take(HEADER_BYTES as int) =~= h@);
        assert(checksum == header_checksum(f@));
    }

    // Store the checksum in octal.
    let mut checksum_field = zeroed_bytes(8);
    int2oct(checksum, &mut checksum_field);
    proof {
        lemma_oct_seq_len(checksum as nat, 7);
    }
    let mut i: usize = 0;
    while i < 8
        invariant
            i <= 8,
            h.len() == HEADER_BYTES,
            checksum_field.len() == 8,
            checksum_field@ == oct_seq(header_checksum(f@), 7).push(0),
            forall|j: int|
                0 <= j < HEADER_BYTES && !(148 <= j < 148 + i) ==> h[j] == header_pre(f@)[j],
            forall|j: int| 148 <= j < 148 + i ==> h[j] == checksum_field[j - 148],
        decreases 8 - i,
    {
        let b = checksum_field[i];
        h.set(148 + i, b);
        i = i + 1;
    }
    proof {
        assert(h@ =~= header_bytes(f@));
    }
    h
}

/// Every produced header's checksum field decodes to the unsigned byte sum
/// of the header with its checksum field replaced by spaces.
pub proof fn lemma_header_checksum_decodes(f: FileView)
    requires
        f.wf(),
    ensures
        spec_oct2int(header_bytes(f).subrange(148, 156)) == Some(
            byte_sum(with_space_checksum(header_bytes(f))),
        ),
{
    assert(with_space_checksum(header_bytes(f)) =~= header_pre(f));
    lemma_byte_sum_bound(header_pre(f));
    assert(pow8(7) == 2097152) by {
        reveal_with_fuel(pow8, 8);
    }
    lemma_oct_seq_len(header_checksum(f), 7);
    assert(header_bytes(f).subrange(148, 156) =~= oct_seq(header_checksum(f), 7).push(0));
    lemma_oct_round_trip(header_checksum(f), 7);
}

/// `n` zero bytes.
pub open spec fn zeros(n: nat) -> Seq<u8> {
    Seq::new(n, |i: int| 0u8)
}

/// The on-disk record for one file: its header, its `size` bytes of data,
/// and zero padding to the next sector boundary.
pub open spec fn record_bytes(f: FileView) -> Seq<u8> {
    header_bytes(f) + f.data.take(f.size as int) + zeros(
        (spec_align_up(f.size as int, 512) - f.size) as nat,
    )
}

/// The length of a file's record.
pub open spec fn rec_len(f: FileView) -> int {
    512 + spec_align_up(f.size as int, 512)
}

/// The archive the in-use prefix of the file slots flushes to.
pub open spec fn disk_image(files: Seq<FileView>) -> Seq<u8>
    decreases files.len(),
{
    if files.len() == 0 || !files[0].in_use {
        Seq::empty()
    } else {
        record_bytes(files[0]) + disk_image(files.skip(1))
    }
}

/// A record is between 512 and 1536 bytes.
pub proof fn lemma_rec_len_bounds(f: FileView)
    requires
        f.wf(),
    ensures
        record_bytes(f).len() == rec_len(f),
        512 <= rec_len(f) <= 1536,
        f.size <= spec_align_up(f.size as int, 512),
{
    crate::address::lemma_align_up_props(f.size as int, 512);
    vstd::arithmetic::div_mod::lemma_mod_bound(f.size as int + 511, 512);
}

/// Appending one more in-use file to an all-in-use prefix appends its
/// record to the image.
pub proof fn lemma_disk_image_snoc(t: Seq<FileView>, x: FileView)
    requires
        forall|j: int| 0 <= j < t.len() ==> (#[trigger] t[j]).in_use,
        x.in_use,
    ensures
        disk_image(t.push(x)) == disk_image(t) + record_bytes(x),
    decreases t.len(),
{
    if t.len() == 0 {
        assert(t.push(x)[0] == x);
        assert(t.push(x).skip(1) =~= Seq::<FileView>::empty());
        assert(disk_image(t.push(x)) == record_bytes(t.push(x)[0]) + disk_image(
            t.push(x).skip(1),
        ));
        assert(disk_image(t.push(x).skip(1)) =~= Seq::<u8>::empty());
        assert(disk_image(t.push(x)) =~= record_bytes(x));
        assert(disk_image(t) + record_bytes(x) =~= record_bytes(x));
    } else {
        assert(t.push(x).skip(1) =~= t.skip(1).push(x));
        lemma_disk_image_snoc(t.skip(1), x);
        assert(disk_image(t.push(x)) =~= disk_image(t) + record_bytes(x));
    }
}

/// The image stops at the first slot not in use.
pub proof fn lemma_disk_image_prefix(s: Seq<FileView>, i: int)
    requires
        0 <= i <= s.len(),
        forall|j: int| 0 <= j < i ==> (#[trigger] s[j]).in_use,
        i == s.len() || !s[i].in_use,
    ensures
        disk_image(s) == disk_image(s.take(i)),
    decreases i,
{
    if i == 0 {
        assert(s.take(0) =~= Seq::<FileView>::empty());
        if s.len() > 0 {
            assert(disk_image(s) =~= Seq::<u8>::empty());
        }
    } else {
        lemma_disk_image_prefix(s.skip(1), i - 1);
        assert(s.take(i).skip(1) =~= s.skip(1).take(i - 1));
        assert(disk_image(s) =~= record_bytes(s[0]) + disk_image(s.skip(1)));
        assert(disk_image(s.take(i)) =~= record_bytes(s[0]) + disk_image(s.take(i).skip(1)));
    }
}

/// The image of well-formed slots fits the disk buffer with a terminating
/// sector to spare.
pub proof fn lemma_disk_image_fits(s: Seq<FileView>)
    requires
        s.len() <= FILES_MAX,
        forall|j: int| 0 <= j < s.len() ==> (#[trigger] s[j]).wf(),
    ensures
        disk_image(s).len() <= 1536 * s.len(),
        disk_image(s).len() + 512 <= DISK_CAPACITY,
        disk_image(s).len() % 512 == 0,
    decreases s.len(),
{
    if s.len() == 0 || !s[0].in_use {
    } else {
        lemma_rec_len_bounds(s[0]);
        lemma_disk_image_fits(s.skip(1));
        crate::address::lemma_align_up_props(s[0].size as int, 512);
        vstd::arithmetic::div_mod::lemma_mod_adds(
            rec_len(s[0]),
            disk_image(s.skip(1)).len() as int,
            512,
        );
        vstd::arithmetic::div_mod::lemma_mod_adds(512, spec_align_up(s[0].size as int, 512), 512);
        vstd::arithmetic::div_mod::lemma_small_mod(0, 512);
    }
}

/// The in-memory disk buffer staged between the file cache and the device.
pub struct Disk(pub Vec<u8>);

impl Disk {
    pub open spec fn wf(&self) -> bool {
        self.0.len() == DISK_CAPACITY
    }

    /// An all-zero disk buffer.
    pub fn empty() -> (r: Self)
        ensures
            r.wf(),
            forall|i: int| 0 <= i < DISK_CAPACITY ==> #[trigger] r.0[i] == 0,
    {
        Disk(zeroed_bytes(DISK_CAPACITY))
    }
}

/// 8 raised to `e`.
pub open spec fn pow8(e: nat) -> nat
    decreases e,
{
    if e == 0 {
        1
    } else {
        8 * pow8((e - 1) as nat)
    }
}

pub proof fn lemma_pow8_pos(e: nat)
    ensures
        pow8(e) >= 1,
    decreases e,
{
    if e > 0 {
        lemma_pow8_pos((e - 1) as nat);
    }
}

/// The low `len` octal digits of `n`, most significant first, as ASCII bytes.
pub open spec fn oct_seq(n: nat, len: nat) -> Seq<u8>
    decreases len,
{
    if len == 0 {
        Seq::empty()
    } else {
        oct_seq(n / 8, (len - 1) as nat).push((n % 8 + 48) as u8)
    }
}

/// Octal parse of `s` starting at `i` with accumulator `acc`: stops at the
/// first NUL byte or the end, fails on any other non-octal byte.
pub open spec fn parse_oct_from(s: Seq<u8>, i: int, acc: nat) -> Option<nat>
    decreases s.len() - i,
{
    if i < 0 || i >= s.len() || s[i] == 0 {
        Some(acc)
    } else if 48 <= s[i] <= 55 {
        parse_oct_from(s, i + 1, (acc * 8 + (s[i] - 48)) as nat)
    } else {
        None
    }
}

/// The value a NUL-terminated octal field decodes to, if it is well formed.
pub open spec fn spec_oct2int(s: Seq<u8>) -> Option<nat> {
    parse_oct_from(s, 0, 0)
}

/// A successful parse never yields less than its starting accumulator.
pub proof fn lemma_parse_monotone(s: Seq<u8>, i: int, acc: nat)
    ensures
        parse_oct_from(s, i, acc) matches Some(v) ==> v >= acc,
    decreases s.len() - i,
{
    if 0 <= i < s.len() && s[i] != 0 && 48 <= s[i] <= 55 {
        lemma_parse_monotone(s, i + 1, (acc * 8 + (s[i] - 48)) as nat);
    }
}

/// Decodes a NUL-terminated octal byte field; fails on a non-octal byte and
/// on a value too large for `usize`.
pub fn oct2int(oct: &[u8]) -> (r: Result<usize, ()>)
    ensures
        r is Ok <==> (spec_oct2int(oct@) matches Some(v) && v <= usize::MAX),
        r matches Ok(v) ==> spec_oct2int(oct@) == Some(v as nat),
{
    let mut i: usize = 0;
    let mut acc: usize = 0;
    while i < oct.len() && oct[i] != 0
        invariant
            0 <= i <= oct@.len(),
            parse_oct_from(oct@, 0, 0) == parse_oct_from(oct@, i as int, acc as nat),
        decreases oct@.len() - i,
    {
        let b = oct[i];
        if 48 <= b && b <= 55 {
            let d = (b - 48) as usize;
            let limit = (usize::MAX - d) / 8;
            proof {
                vstd::arithmetic::div_mod::lemma_fundamental_div_mod(
                    (usize::MAX - d) as int,
                    8,
                );
                vstd::arithmetic::div_mod::lemma_mod_bound((usize::MAX - d) as int, 8);
                if acc <= limit {
                    vstd::arithmetic::mul::lemma_mul_inequality(
                        acc as int,
                        limit as int,
                        8,
                    );
                } else {
                    vstd::arithmetic::mul::lemma_mul_inequality(
                        (limit + 1) as int,
                        acc as int,
                        8,
                    );
                    lemma_parse_monotone(oct@, i + 1, (acc * 8 + d) as nat);
                }
            }
            if acc > limit {
                return Err(());
            }
            acc = acc * 8 + d;
            i = i + 1;
        } else {
            return Err(());
        }
    }
    Ok(acc)
}

/// The first element of a nonempty digit sequence is the most significant
/// digit.
#[verifier::spinoff_prover]
pub proof fn lemma_oct_seq_first(n: nat, m: nat)
    requires
        m >= 1,
    ensures
        oct_seq(n, m).len() == m,
        oct_seq(n, m)[0] == (n / pow8((m - 1) as nat)) % 8 + 48,
    decreases m,
{
    lemma_oct_seq_len(n, m);
    if m == 1 {
    } else {
        lemma_oct_seq_first(n / 8, (m - 1) as nat);
        lemma_oct_seq_len(n / 8, (m - 1) as nat);
        lemma_pow8_pos((m - 2) as nat);
        assert(oct_seq(n, m)[0] == oct_seq(n / 8, (m - 1) as nat)[0]);
        assert((n / 8) / pow8((m - 2) as nat) == n / (8 * pow8((m - 2) as nat))) by {
            vstd::arithmetic::div_mod::lemma_div_denominator(n as int, 8, pow8((m - 2) as nat) as int);
        }
        assert(8 * pow8((m - 2) as nat) == pow8((m - 1) as nat));
    }
}

pub proof fn lemma_oct_seq_len(n: nat, m: nat)
    ensures
        oct_seq(n, m).len() == m,
    decreases m,
{
    if m > 0 {
        lemma_oct_seq_len(n / 8, (m - 1) as nat);
    }
}

/// Dropping the leading digit of an `m + 1` digit rendering leaves the `m`
/// digit rendering.
pub proof fn lemma_oct_seq_skip1(n: nat, m: nat)
    ensures
        oct_seq(n, m + 1).skip(1) =~= oct_seq(n, m),
    decreases m,
{
    lemma_oct_seq_len(n, m + 1);
    lemma_oct_seq_len(n, m);
    lemma_oct_seq_len(n / 8, m);
    if m == 0 {
    } else {
        lemma_oct_seq_skip1(n / 8, (m - 1) as nat);
        lemma_oct_seq_len(n / 8, (m - 1) as nat);
        assert(oct_seq(n, m + 1).skip(1) =~= oct_seq(n / 8, m).skip(1).push((n % 8 + 48) as u8));
    }
}

/// Encodes `dec` into `oct` as NUL-terminated octal, filling every other
/// byte with a digit, most significant first.
pub fn int2oct(dec: usize, oct: &mut Vec<u8>)
    requires
        old(oct)@.len() >= 1,
    ensures
        final(oct)@ == oct_seq(dec as nat, (old(oct)@.len() - 1) as nat).push(0),
{
    let ghost len = oct@.len();
    let mut num = dec;
    let mut k = oct.len() - 1;
    oct.set(k, 0);
    proof {
        lemma_oct_seq_len(dec as nat, 0);
        assert(oct@.subrange(k as int, len as int) =~= oct_seq(dec as nat, 0).push(0));
        assert(pow8(0) == 1);
        vstd::arithmetic::div_mod::lemma_div_basics(dec as int);
    }
    while k > 0
        invariant
            oct@.len() == len,
            0 <= k <= len - 1,
            num == dec as nat / pow8((len - 1 - k) as nat),
            oct@.subrange(k as int, len as int) =~= oct_seq(dec as nat, (len - 1 - k) as nat).push(0),
        decreases k,
    {
        let ghost l0 = (len - 1 - k) as nat;
        k = k - 1;
        oct.set(k, (num % 8) as u8 + 48);
        proof {
            let l1 = (l0 + 1) as nat;
            lemma_oct_seq_first(dec as nat, l1);
            lemma_oct_seq_skip1(dec as nat, l0);
            lemma_oct_seq_len(dec as nat, l1);
            assert(oct@.subrange(k as int, len as int) =~= oct_seq(dec as nat, l1).push(0)) by {
                assert(oct@[k as int] == (dec as nat / pow8(l0)) % 8 + 48);
                assert forall|j: int| 0 <= j < l1 + 1 implies oct@.subrange(
                    k as int,
                    len as int,
                )[j] == oct_seq(dec as nat, l1).push(0)[j] by {
                    if j == 0 {
                    } else {
                        assert(oct_seq(dec as nat, l1).push(0)[j] == oct_seq(dec as nat, l1).skip(
                            1,
                        ).push(0)[j - 1]);
                        assert(oct@.subrange(k as int, len as int)[j] == oct@.subrange(
                            k + 1,
                            len as int,
                        )[j - 1]);
                    }
                }
            }
        }
        num = num / 8;
        proof {
            assert(num == dec as nat / pow8((len - 1 - k) as nat)) by {
                lemma_pow8_pos(l0);
                vstd::arithmetic::div_mod::lemma_div_denominator(dec as int, pow8(l0) as int, 8);
                assert(8 * pow8(l0) == pow8(l0 + 1));
            }
        }
    }
    proof {
        assert(oct@ =~= oct@.subrange(0, len as int));
    }
}

/// Threading an octal parse through a run of digit bytes folds them into the
/// accumulator.
proof fn lemma_parse_digit_run(s: Seq<u8>, t: Seq<u8>, i: int, acc: nat)
    requires
        0 <= i <= s.len(),
        forall|j: int| 0 <= j < s.len() ==> 48 <= #[trigger] s[j] <= 55,
    ensures
        parse_oct_from(s + t, i, acc) == parse_oct_from(t, 0, run_val(s, i, acc)),
    decreases s.len() - i,
{
    if i == s.len() {
        lemma_parse_shift(s, t, acc);
    } else {
        assert((s + t)[i] == s[i]);
        lemma_parse_digit_run(s, t, i + 1, (acc * 8 + (s[i] - 48)) as nat);
    }
}

/// Parsing the concatenation from the start of `t` equals parsing `t`.
proof fn lemma_parse_shift(s: Seq<u8>, t: Seq<u8>, acc: nat)
    ensures
        parse_oct_from(s + t, s.len() as int, acc) == parse_oct_from(t, 0, acc),
    decreases t.len(),
{
    lemma_parse_shift_from(s, t, 0, acc);
}

proof fn lemma_parse_shift_from(s: Seq<u8>, t: Seq<u8>, i: int, acc: nat)
    requires
        0 <= i <= t.len(),
    ensures
        parse_oct_from(s + t, s.len() + i, acc) == parse_oct_from(t, i, acc),
    decreases t.len() - i,
{
    if i < t.len() {
        assert((s + t)[s.len() + i] == t[i]);
        if t[i] != 0 && 48 <= t[i] <= 55 {
            lemma_parse_shift_from(s, t, i + 1, (acc * 8 + (t[i] - 48)) as nat);
        }
    }
}

/// The accumulator value after folding the digit run of `s` from `i`.
pub open spec fn run_val(s: Seq<u8>, i: int, acc: nat) -> nat
    decreases s.len() - i,
{
    if i < 0 || i >= s.len() {
        acc
    } else {
        run_val(s, i + 1, (acc * 8 + (s[i] - 48)) as nat)
    }
}

proof fn lemma_run_val_push(s: Seq<u8>, d: u8, i: int, acc: nat)
    requires
        0 <= i <= s.len(),
        48 <= d <= 55,
    ensures
        run_val(s.push(d), i, acc) == run_val(s, i, acc) * 8 + (d - 48),
    decreases s.len() - i,
{
    if i == s.len() {
        assert(s.push(d)[i] == d);
        assert(run_val(s.push(d), i, acc) == run_val(
            s.push(d),
            i + 1,
            (acc * 8 + (d - 48)) as nat,
        ));
        assert(run_val(s.push(d), i + 1, (acc * 8 + (d - 48)) as nat) == (acc * 8 + (d - 48)) as nat);
    } else {
        assert(s.push(d)[i] == s[i]);
        lemma_run_val_push(s, d, i + 1, (acc * 8 + (s[i] - 48)) as nat);
    }
}

/// All bytes of a digit rendering are octal digits.
pub proof fn lemma_oct_seq_digits(n: nat, m: nat)
    ensures
        forall|j: int| 0 <= j < oct_seq(n, m).len() ==> 48 <= #[trigger] oct_seq(n, m)[j] <= 55,
    decreases m,
{
    if m > 0 {
        lemma_oct_seq_digits(n / 8, (m - 1) as nat);
        lemma_oct_seq_len(n / 8, (m - 1) as nat);
        assert forall|j: int| 0 <= j < oct_seq(n, m).len() implies 48 <= #[trigger] oct_seq(n, m)[j]
            <= 55 by {
            if j < m - 1 {
                assert(oct_seq(n, m)[j] == oct_seq(n / 8, (m - 1) as nat)[j]);
            }
        }
    }
}

proof fn lemma_run_val_oct_seq(n: nat, m: nat, acc: nat)
    requires
        n < pow8(m),
    ensures
        run_val(oct_seq(n, m), 0, acc) == acc * pow8(m) + n,
    decreases m,
{
    lemma_oct_seq_len(n, m);
    if m == 0 {
    } else {
        lemma_pow8_pos((m - 1) as nat);
        assert(n / 8 < pow8((m - 1) as nat)) by {
            assert(pow8(m) == 8 * pow8((m - 1) as nat));
            vstd::arithmetic::div_mod::lemma_multiply_divide_lt(
                n as int,
                8,
                pow8((m - 1) as nat) as int,
            );
        }
        lemma_run_val_oct_seq(n / 8, (m - 1) as nat, acc);
        lemma_oct_seq_len(n / 8, (m - 1) as nat);
        lemma_run_val_push(
            oct_seq(n / 8, (m - 1) as nat),
            (n % 8 + 48) as u8,
            0,
            acc,
        );
        assert((acc * pow8((m - 1) as nat) + n / 8) * 8 + n % 8 == acc * pow8(m) + n) by {
            assert(pow8(m) == 8 * pow8((m - 1) as nat));
            vstd::arithmetic::div_mod::lemma_fundamental_div_mod(n as int, 8);
            assert((acc * pow8((m - 1) as nat) + n / 8) * 8 == acc * (8 * pow8((m - 1) as nat)) + (n
                / 8) * 8) by (nonlinear_arith);
        }
    }
}

/// Decoding inverts encoding: a value below `pow8(m)` written as `m` octal
/// digits with a NUL terminator parses back to itself.
pub proof fn lemma_oct_round_trip(n: nat, m: nat)
    requires
        n < pow8(m),
    ensures
        spec_oct2int(oct_seq(n, m).push(0)) == Some(n),
{
    let s = oct_seq(n, m);
    let t = seq![0u8];
    lemma_oct_seq_len(n, m);
    lemma_oct_seq_digits(n, m);
    assert(s.push(0) =~= s + t);
    lemma_parse_digit_run(s, t, 0, 0);
    lemma_run_val_oct_seq(n, m, 0);
    assert(parse_oct_from(t, 0, run_val(s, 0, 0)) == Some(run_val(s, 0, 0)));
}

/// Rebuilds the disk buffer from the in-use files — one ustar record per
/// file, terminated by the zeroed remainder of the buffer — and writes the
/// whole buffer back to the block device sector by sector.
#[verifier::rlimit(100)]
#[verifier::loop_isolation(false)]
pub fn fs_flush(files: &Files, disk: &mut Disk, blk: &mut VirtioBlk, dev: &mut VirtioDevice)
    requires
        files.wf(),
        old(disk).wf(),
        old(blk).wf(),
        old(dev).wf(),
        old(blk).capacity == old(dev).capacity_sectors * 512,
        old(dev).capacity_sectors >= 7,
    ensures
        final(disk).wf(),
        final(blk).wf(),
        final(dev).wf(),
        final(blk).capacity == old(blk).capacity,
        final(dev).capacity_sectors == old(dev).capacity_sectors,
        final(disk).0@ == disk_image(files.views()) + zeros(
            (DISK_CAPACITY - disk_image(files.views()).len()) as nat,
        ),
        final(dev).data.len() == old(dev).data.len(),
        final(dev).data@.subrange(0, DISK_CAPACITY as int) == final(disk).0@,
        forall|j: int|
            DISK_CAPACITY <= j < old(dev).data.len() ==> final(dev).data@[j] == old(dev).data@[j],
{
    proof {
        lemma_disk_image_fits(files.views());
        crate::allocator::lemma_pow2_4096();
    }

    // Copy all file contents into the disk buffer.
    disk.0 = zeroed_bytes(DISK_CAPACITY);
    let mut off: usize = 0;
    let mut i: usize = 0;
    while i < FILES_MAX && files.0[i].in_use
        invariant
            i <= FILES_MAX,
            off == disk_image(files.views().take(i as int)).len(),
            off <= 1536 * i,
            disk.0.len() == DISK_CAPACITY,
            forall|j: int| 0 <= j < i ==> (#[trigger] files.0[j]).in_use,
            disk.0@.take(off as int) == disk_image(files.views().take(i as int)),
            forall|j: int| off <= j < DISK_CAPACITY ==> disk.0@[j] == 0,
        decreases FILES_MAX - i,
    {
        let ghost off0 = off as int;
        let ghost pre = disk.0@;
        proof {
            lemma_disk_image_fits(files.views().take(i as int));
            lemma_rec_len_bounds(files.0[i as int]@);
        }
        let f = &files.0[i];
        let h = build_header(f);

        // Header.
        let mut k: usize = 0;
        while k < HEADER_BYTES
            invariant
                k <= HEADER_BYTES,
                off0 + 1536 <= DISK_CAPACITY,
                disk.0.len() == DISK_CAPACITY,
                h.len() == HEADER_BYTES,
                forall|j: int| 0 <= j < off0 ==> disk.0@[j] == pre[j],
                forall|j: int| off0 <= j < off0 + k ==> disk.0@[j] == h@[j - off0],
                forall|j: int| off0 + k <= j < DISK_CAPACITY ==> disk.0@[j] == 0,
            decreases HEADER_BYTES - k,
        {
            let b = h[k];
            disk.0.set(off + k, b);
            k = k + 1;
        }

        // Data: the file's `size` bytes; the padding is already zero.
        let mut k: usize = 0;
        while k < f.size
            invariant
                k <= f.size,
                f.wf(),
                f == files.0[i as int],
                off0 + 1536 <= DISK_CAPACITY,
                disk.0.len() == DISK_CAPACITY,
                h.len() == HEADER_BYTES,
                forall|j: int| 0 <= j < off0 ==> disk.0@[j] == pre[j],
                forall|j: int| off0 <= j < off0 + 512 ==> disk.0@[j] == h@[j - off0],
                forall|j: int|
                    off0 + 512 <= j < off0 + 512 + k ==> disk.0@[j] == f.data@[j - off0 - 512],
                forall|j: int| off0 + 512 + k <= j < DISK_CAPACITY ==> disk.0@[j] == 0,
            decreases f.size - k,
        {
            let b = f.data[k];
            disk.0.set(off + HEADER_BYTES + k, b);
            k = k + 1;
        }

        let pad = align_up(f.size, SECTOR_SIZE);
        proof {
            let fv = files.0[i as int]@;
            assert(disk.0@.subrange(off0, off0 + rec_len(fv)) =~= record_bytes(fv));
            let t = files.views().take(i as int);
            assert(forall|j: int| 0 <= j < t.len() ==> (#[trigger] t[j]).in_use);
            lemma_disk_image_snoc(t, fv);
            assert(files.views().take(i as int + 1) =~= t.push(fv));
            assert(disk.0@.take(off0 + rec_len(fv)) =~= disk_image(files.views().take(i as int))
                + record_bytes(fv)) by {
                assert(disk.0@.take(off0) =~= pre.take(off0));
            }
        }
        off = off + HEADER_BYTES + pad;
        i = i + 1;
    }
    proof {
        lemma_disk_image_prefix(files.views(), i as int);
        assert(disk.0@ =~= disk_image(files.views()) + zeros(
            (DISK_CAPACITY - disk_image(files.views()).len()) as nat,
        ));
    }

    // Write the disk buffer into the virtio-blk device.
    let ghost staged = disk.0@;
    let mut sector: usize = 0;
    while sector < DISK_CAPACITY / SECTOR_SIZE
        invariant
            sector <= 7,
            disk.0@ == staged,
            disk.0.len() == DISK_CAPACITY,
            blk.wf(),
            dev.wf(),
            blk.capacity == old(blk).capacity,
            blk.capacity == dev.capacity_sectors * 512,
            dev.capacity_sectors == old(dev).capacity_sectors,
            dev.data.len() == old(dev).data.len(),
            forall|j: int| 0 <= j < sector * 512 ==> dev.data@[j] == staged[j],
            forall|j: int| sector * 512 <= j < dev.data.len() ==> dev.data@[j] == old(dev).data@[j],
        decreases 7 - sector,
    {
        let base = sector * SECTOR_SIZE;
        let mut buf: Vec<u8> = Vec::new();
        while buf.len() < SECTOR_SIZE
            invariant
                buf.len() <= SECTOR_SIZE,
                base == sector * 512,
                base + 512 <= DISK_CAPACITY,
                disk.0@ == staged,
                disk.0.len() == DISK_CAPACITY,
                forall|j: int| 0 <= j < buf.len() ==> buf@[j] == staged[base + j],
            decreases SECTOR_SIZE - buf.len(),
        {
            let k = buf.len();
            let b = disk.0[base + k];
            buf.push(b);
        }
        read_write_disk(blk, dev, &mut buf, sector as u64, true);
        sector = sector + 1;
    }
    proof {
        assert(final(dev).data@.subrange(0, DISK_CAPACITY as int) =~= staged);
    }
}

/// The files an on-disk archive parses to, starting at `off` with `slot`
/// slots already filled: a zero first name byte ends the walk and leaves
/// the remaining slots empty; a bad magic, an unparsable or oversized size
/// field, or a truncated record fails.
pub open spec fn parse_rec(disk: Seq<u8>, off: int, slot: int) -> Option<Seq<FileView>>
    decreases FILES_MAX - slot,
{
    if slot >= FILES_MAX {
        Some(Seq::empty())
    } else if off < 0 || off + 512 > disk.len() {
        None
    } else if disk[off] == 0 {
        Some(Seq::new((FILES_MAX - slot) as nat, |i: int| zeroed_file_view()))
    } else if disk.subrange(off + 257, off + 263) != magic_seq() {
        None
    } else {
        match spec_oct2int(disk.subrange(off + 124, off + 136)) {
            None => None,
            Some(sz) => {
                if sz > FILE_DATA_BYTES || off + 512 + sz > disk.len() {
                    None
                } else {
                    let f = FileView {
                        in_use: true,
                        name: disk.subrange(off, off + 100),
                        data: disk.subrange(off + 512, off + 512 + sz) + zeros(
                            (FILE_DATA_BYTES - sz) as nat,
                        ),
                        size: sz,
                    };
                    match parse_rec(disk, off + 512 + spec_align_up(sz as int, 512), slot + 1) {
                        None => None,
                        Some(rest) => Some(seq![f] + rest),
                    }
                }
            },
        }
    }
}

/// Loads the backing store sector by sector into the disk buffer, then
/// walks it as a sequence of ustar records, filling one file slot per
/// record until the terminating zero byte; the remaining slots stay empty.
/// Fails exactly when the archive is malformed: a wrong magic, a size field
/// that is not NUL-terminated octal or exceeds the file data capacity, or a
/// record that runs past the buffer.
#[verifier::rlimit(100)]
#[verifier::loop_isolation(false)]
pub fn fs_init(
    files: &mut Files,
    disk: &mut Disk,
    blk: &mut VirtioBlk,
    dev: &mut VirtioDevice,
) -> (r: Result<(), ()>)
    requires
        old(disk).wf(),
        old(blk).wf(),
        old(dev).wf(),
        old(blk).capacity == old(dev).capacity_sectors * 512,
        old(dev).capacity_sectors >= 7,
    ensures
        final(files).wf(),
        final(disk).wf(),
        final(blk).wf(),
        final(dev).wf(),
        final(blk).capacity == old(blk).capacity,
        final(dev).capacity_sectors == old(dev).capacity_sectors,
        final(dev).data == old(dev).data,
        final(disk).0@ == old(dev).data@.subrange(0, DISK_CAPACITY as int),
        r is Ok <==> parse_rec(old(dev).data@.subrange(0, DISK_CAPACITY as int), 0, 0) is Some,
        r matches Ok(u) ==> final(files).views() == parse_rec(
            old(dev).data@.subrange(0, DISK_CAPACITY as int),
            0,
            0,
        ).unwrap(),
{
    proof {
        crate::allocator::lemma_pow2_4096();
    }

    // Load the backing store into the disk buffer, one sector at a time.
    let mut fresh_disk = zeroed_bytes(DISK_CAPACITY);
    let mut sector: usize = 0;
    while sector < DISK_CAPACITY / SECTOR_SIZE
        invariant
            sector <= 7,
            fresh_disk.len() == DISK_CAPACITY,
            blk.wf(),
            dev.wf(),
            blk.capacity == old(blk).capacity,
            blk.capacity == dev.capacity_sectors * 512,
            dev.capacity_sectors == old(dev).capacity_sectors,
            dev.data == old(dev).data,
            forall|j: int| 0 <= j < sector * 512 ==> fresh_disk@[j] == dev.data@[j],
        decreases 7 - sector,
    {
        let mut buf = zeroed_bytes(SECTOR_SIZE);
        read_write_disk(blk, dev, &mut buf, sector as u64, false);
        let base = sector * SECTOR_SIZE;
        let mut k: usize = 0;
        while k < SECTOR_SIZE
            invariant
                k <= SECTOR_SIZE,
                base == sector * 512,
                base + 512 <= DISK_CAPACITY,
                buf.len() == SECTOR_SIZE,
                fresh_disk.len() == DISK_CAPACITY,
                buf@ == dev.data@.subrange(base as int, base + 512),
                forall|j: int| 0 <= j < base + k ==> fresh_disk@[j] == dev.data@[j],
            decreases SECTOR_SIZE - k,
        {
            let b = buf[k];
            fresh_disk.set(base + k, b);
            k = k + 1;
        }
        sector = sector + 1;
    }
    disk.0 = fresh_disk;
    let ghost dimg = disk.0@;
    proof {
        assert(dimg =~= old(dev).data@.subrange(0, DISK_CAPACITY as int));
    }

    // Reset the cache, then fill it from the records.
    *files = Files::new();

    let mut off: usize = 0;
    let mut i: usize = 0;
    while i < FILES_MAX
        invariant
            i <= FILES_MAX,
            off <= i * 1536,
            files.wf(),
            files.0.len() == FILES_MAX,
            disk.0@ == dimg,
            disk.0.len() == DISK_CAPACITY,
            forall|j: int| 0 <= j < i ==> (#[trigger] files.0[j]).in_use,
            forall|j: int| i <= j < FILES_MAX ==> (#[trigger] files.0[j])@ == zeroed_file_view(),
            parse_rec(dimg, off as int, i as int) matches Some(rest) ==> parse_rec(dimg, 0, 0)
                == Some(files.views().take(i as int) + rest),
            parse_rec(dimg, off as int, i as int) is None ==> parse_rec(dimg, 0, 0) is None,
        decreases FILES_MAX - i,
    {
        let ghost off0 = off as int;

        if off + HEADER_BYTES > DISK_CAPACITY {
            return Err(());
        }

        if disk.0[off] == 0 {
            // End of archive: the remaining slots stay empty.
            proof {
                let rest = Seq::new((FILES_MAX - i) as nat, |j: int| zeroed_file_view());
                assert(parse_rec(dimg, off0, i as int) == Some(rest));
                assert(files.views() =~= files.views().take(i as int) + rest);
            }
            return Ok(());
        }

        // Magic check: "ustar\0".
        let m0 = disk.0[off + 257];
        let m1 = disk.0[off + 258];
        let m2 = disk.0[off + 259];
        let m3 = disk.0[off + 260];
        let m4 = disk.0[off + 261];
        let m5 = disk.0[off + 262];
        if !(m0 == 117 && m1 == 115 && m2 == 116 && m3 == 97 && m4 == 114 && m5 == 0) {
            proof {
                assert(dimg.subrange(off0 + 257, off0 + 263) != magic_seq()) by {
                    if dimg.subrange(off0 + 257, off0 + 263) == magic_seq() {
                        assert(dimg.subrange(off0 + 257, off0 + 263)[0] == 117);
                        assert(dimg.subrange(off0 + 257, off0 + 263)[1] == 115);
                        assert(dimg.subrange(off0 + 257, off0 + 263)[2] == 116);
                        assert(dimg.subrange(off0 + 257, off0 + 263)[3] == 97);
                        assert(dimg.subrange(off0 + 257, off0 + 263)[4] == 114);
                        assert(dimg.subrange(off0 + 257, off0 + 263)[5] == 0);
                    }
                }
            }
            return Err(());
        }
        proof {
            assert(dimg.subrange(off0 + 257, off0 + 263) =~= magic_seq());
        }

        // Size field: NUL-terminated octal.
        let mut size_field = zeroed_bytes(12);
        let mut k: usize = 0;
        while k < 12
            invariant
                k <= 12,
                size_field.len() == 12,
                off0 + 512 <= DISK_CAPACITY,
                disk.0@ == dimg,
                disk.0.len() == DISK_CAPACITY,
                off == off0,
                forall|j: int| 0 <= j < k ==> size_field@[j] == dimg[off0 + 124 + j],
            decreases 12 - k,
        {
            let b = disk.0[off + 124 + k];
            size_field.set(k, b);
            k = k + 1;
        }
        proof {
            assert(size_field@ =~= dimg.subrange(off0 + 124, off0 + 136));
        }
        let filesz = match oct2int(size_field.as_slice()) {
            Ok(s) => s,
            Err(()) => {
                return Err(());
            },
        };
        if filesz > FILE_DATA_BYTES {
            return Err(());
        }
        if off + HEADER_BYTES + filesz > DISK_CAPACITY {
            return Err(());
        }

        // Fill the slot.
        let ghost fv = FileView {
            in_use: true,
            name: dimg.subrange(off0, off0 + 100),
            data: dimg.subrange(off0 + 512, off0 + 512 + filesz as int) + zeros(
                (FILE_DATA_BYTES - filesz) as nat,
            ),
            size: filesz as nat,
        };
        let p = &mut files.0[i];
        p.in_use = true;
        p.size = filesz;
        let mut k: usize = 0;
        while k < 100
            invariant
                k <= 100,
                off0 + 512 <= DISK_CAPACITY,
                disk.0@ == dimg,
                disk.0.len() == DISK_CAPACITY,
                off == off0,
                p.in_use == true,
                p.size == filesz,
                p.name.len() == 100,
                p.data.len() == FILE_DATA_BYTES,
                forall|j: int| 0 <= j < k ==> p.name@[j] == dimg[off0 + j],
                forall|j: int| 0 <= j < FILE_DATA_BYTES ==> p.data@[j] == 0,
            decreases 100 - k,
        {
            let b = disk.0[off + k];
            p.name.set(k, b);
            k = k + 1;
        }
        let mut k: usize = 0;
        while k < filesz
            invariant
                k <= filesz,
                filesz <= FILE_DATA_BYTES,
                off0 + 512 + filesz <= DISK_CAPACITY,
                disk.0@ == dimg,
                disk.0.len() == DISK_CAPACITY,
                off == off0,
                p.in_use == true,
                p.size == filesz,
                p.name.len() == 100,
                p.data.len() == FILE_DATA_BYTES,
                forall|j: int| 0 <= j < 100 ==> p.name@[j] == dimg[off0 + j],
                forall|j: int| 0 <= j < k ==> p.data@[j] == dimg[off0 + 512 + j],
                forall|j: int| k <= j < FILE_DATA_BYTES ==> p.data@[j] == 0,
            decreases filesz - k,
        {
            let b = disk.0[off + HEADER_BYTES + k];
            p.data.set(k, b);
            k = k + 1;
        }
        proof {
            assert(p.name@ =~= fv.name);
            assert(p.data@ =~= fv.data);
        }

        off = off + HEADER_BYTES + align_up(filesz, SECTOR_SIZE);
        i = i + 1;

        proof {
            crate::address::lemma_align_up_props(filesz as int, 512);
            assert(files.0[i - 1]@ == fv);
            assert(files.views().take(i as int) =~= files.views().take(i as int - 1).push(fv));
            if parse_rec(dimg, off as int, i as int) is Some {
                let rest = parse_rec(dimg, off as int, i as int).unwrap();
                assert(parse_rec(dimg, off0, i as int - 1) == Some(seq![fv] + rest));
                assert(files.views().take(i as int - 1) + (seq![fv] + rest) =~= files.views().take(
                    i as int,
                ) + rest);
            }
        }
    }
    proof {
        assert(parse_rec(dimg, off as int, FILES_MAX as int) == Some(Seq::<FileView>::empty()));
        assert(files.views() =~= files.views().take(FILES_MAX as int) + Seq::<FileView>::empty());
    }
    Ok(())
}

/// What a flush-then-load round trip preserves of each slot: an in-use
/// file keeps its name, its size, and its first `size` data bytes, with
/// the data tail zeroed; a slot not in use comes back empty.
pub open spec fn projected(files: Seq<FileView>) -> Seq<FileView> {
    Seq::new(
        files.len(),
        |i: int|
            if files[i].in_use {
                FileView {
                    in_use: true,
                    name: files[i].name,
                    data: files[i].data.take(files[i].size as int) + zeros(
                        (FILE_DATA_BYTES - files[i].size) as nat,
                    ),
                    size: files[i].size,
                }
            } else {
                zeroed_file_view()
            },
    )
}

/// In a table whose unused slots close it off, every slot after an unused
/// one is unused.
pub proof fn lemma_prefix_transitive(s: Seq<FileView>, i: int, j: int)
    requires
        forall|k: int| 0 <= k < s.len() - 1 && !(#[trigger] s[k]).in_use ==> !s[k + 1].in_use,
        0 <= i <= j < s.len(),
        !s[i].in_use,
    ensures
        !s[j].in_use,
    decreases j - i,
{
    if i < j {
        lemma_prefix_transitive(s, i + 1, j);
    }
}

/// Parsing an archive laid out from `slot` onward yields the projection of
/// the remaining slots.
#[verifier::rlimit(100)]
pub proof fn lemma_parse_image(s: Seq<FileView>, disk: Seq<u8>, off: int, slot: int)
    requires
        0 <= slot <= FILES_MAX,
        s.len() == FILES_MAX,
        forall|j: int| 0 <= j < s.len() ==> (#[trigger] s[j]).wf(),
        forall|k: int| 0 <= k < s.len() - 1 && !(#[trigger] s[k]).in_use ==> !s[k + 1].in_use,
        disk.len() == DISK_CAPACITY,
        off >= 0,
        off + disk_image(s.skip(slot)).len() + 512 <= DISK_CAPACITY,
        forall|j: int|
            off <= j < off + disk_image(s.skip(slot)).len() ==> #[trigger] disk[j] == disk_image(
                s.skip(slot),
            )[j - off],
        forall|j: int|
            off + disk_image(s.skip(slot)).len() <= j < DISK_CAPACITY ==> #[trigger] disk[j] == 0,
    ensures
        parse_rec(disk, off, slot) == Some(projected(s).skip(slot)),
    decreases FILES_MAX - slot,
{
    let rs = s.skip(slot);
    if slot == FILES_MAX {
        assert(projected(s).skip(slot) =~= Seq::<FileView>::empty());
    } else if !rs[0].in_use {
        assert(disk_image(rs).len() == 0);
        assert(disk[off] == 0);
        let rest = Seq::new((FILES_MAX - slot) as nat, |i: int| zeroed_file_view());
        assert(parse_rec(disk, off, slot) == Some(rest));
        assert forall|i: int| 0 <= i < rest.len() implies projected(s).skip(slot)[i] == rest[i] by {
            lemma_prefix_transitive(s, slot, slot + i);
        }
        assert(projected(s).skip(slot) =~= rest);
    } else {
        let f = rs[0];
        let sz = f.size as int;
        let rl = rec_len(f);
        lemma_rec_len_bounds(f);
        assert(disk_image(rs) == record_bytes(f) + disk_image(rs.skip(1)));
        assert(f.wf());

        // The first byte is the file's first name byte, which is not NUL.
        assert(record_bytes(f)[0] == header_bytes(f)[0]);
        assert(header_bytes(f)[0] == f.name[0]);
        assert(disk[off] == f.name[0]);
        assert(disk[off] != 0);

        // The magic field.
        assert(disk.subrange(off + 257, off + 263) =~= magic_seq()) by {
            assert forall|k: int| 0 <= k < 6 implies disk[off + 257 + k] == magic_seq()[k] by {
                assert(disk[off + 257 + k] == record_bytes(f)[257 + k]);
                assert(record_bytes(f)[257 + k] == header_bytes(f)[257 + k]);
            }
        }

        // The size field decodes to the file's size.
        assert(disk.subrange(off + 124, off + 136) =~= oct_seq(f.size, 11).push(0)) by {
            lemma_oct_seq_len(f.size, 11);
            assert forall|k: int| 0 <= k < 12 implies disk[off + 124 + k] == oct_seq(
                f.size,
                11,
            ).push(0)[k] by {
                assert(disk[off + 124 + k] == record_bytes(f)[124 + k]);
                assert(record_bytes(f)[124 + k] == header_bytes(f)[124 + k]);
                assert(header_bytes(f)[124 + k] == header_pre(f)[124 + k]);
            }
        }
        assert(pow8(11) == 0x200000000) by {
            reveal_with_fuel(pow8, 12);
        }
        lemma_oct_round_trip(f.size, 11);
        assert(spec_oct2int(disk.subrange(off + 124, off + 136)) == Some(f.size));

        // The name and data fields.
        assert(disk.subrange(off, off + 100) =~= f.name) by {
            assert forall|k: int| 0 <= k < 100 implies disk[off + k] == f.name[k] by {
                assert(disk[off + k] == record_bytes(f)[k]);
                assert(record_bytes(f)[k] == header_bytes(f)[k]);
                assert(header_bytes(f)[k] == header_pre(f)[k]);
            }
        }
        assert(disk.subrange(off + 512, off + 512 + sz) =~= f.data.take(sz)) by {
            assert forall|k: int| 0 <= k < sz implies disk[off + 512 + k] == f.data.take(sz)[k] by {
                assert(disk[off + 512 + k] == record_bytes(f)[512 + k]);
                assert(record_bytes(f)[512 + k] == f.data.take(sz)[k]);
            }
        }

        // The rest of the archive parses to the rest of the projection.
        assert(rs.skip(1) =~= s.skip(slot + 1));
        assert forall|j: int|
            off + rl <= j < off + rl + disk_image(s.skip(slot + 1)).len() implies #[trigger] disk[j]
            == disk_image(s.skip(slot + 1))[j - off - rl] by {
            assert(disk[j] == disk_image(rs)[j - off]);
            assert(disk_image(rs)[j - off] == disk_image(rs.skip(1))[j - off - rl]);
        }
        lemma_parse_image(s, disk, off + rl, slot + 1);

        // Assemble.
        let fv = FileView {
            in_use: true,
            name: disk.subrange(off, off + 100),
            data: disk.subrange(off + 512, off + 512 + sz) + zeros((FILE_DATA_BYTES - sz) as nat),
            size: f.size,
        };
        assert(parse_rec(disk, off, slot) == Some(seq![fv] + projected(s).skip(slot + 1)));
        assert(fv == projected(s)[slot]) by {
            assert(fv.data =~= projected(s)[slot].data);
        }
        assert(seq![fv] + projected(s).skip(slot + 1) =~= projected(s).skip(slot));
    }
}

/// A flush followed by a load is a projection: every in-use file keeps its
/// name, size, and first `size` data bytes, and every slot not in use
/// comes back empty.
pub proof fn lemma_flush_init_round_trip(files: Files)
    requires
        files.wf(),
    ensures
        parse_rec(
            disk_image(files.views()) + zeros(
                (DISK_CAPACITY - disk_image(files.views()).len()) as nat,
            ),
            0,
            0,
        ) == Some(projected(files.views())),
{
    let v = files.views();
    lemma_disk_image_fits(v);
    let disk = disk_image(v) + zeros((DISK_CAPACITY - disk_image(v).len()) as nat);
    assert(v.skip(0) =~= v);
    assert forall|j: int|
        0 <= j < disk_image(v.skip(0)).len() implies #[trigger] disk[j] == disk_image(v.skip(0))[j]
        by {}
    assert forall|j: int|
        disk_image(v.skip(0)).len() <= j < DISK_CAPACITY implies #[trigger] disk[j] == 0 by {}
    lemma_parse_image(v, disk, 0, 0);
    assert(projected(v).skip(0) =~= projected(v));
}

} // verus!
