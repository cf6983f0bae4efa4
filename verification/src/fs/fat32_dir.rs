//! FAT32 directories: listing the entries along a directory's cluster
//! chain, 8.3 names, and removing an entry.
use vstd::prelude::*;
use crate::bytes::{le16, le32, enc16, read_u16_le, read_u32_le, zeroed_vec};
use crate::drivers::ide::{IdeDisk, run_stop};
use crate::text::{string_of, bytes_eq, sub_slice};
use vstd::string::StringSliceAdditionalSpecFns;
use crate::fs::fat32::{Fat32Fs, DirEntry32, FAT_EOC, fat_set, lemma_free_cluster_range, cluster_lba, cluster_image, cluster_write, fat_pos, fat_set_outcome, free_cluster_from, alloc_outcome, next_of};
use crate::fs::fat32_file::{cluster_prefix, chain_freed, with_cluster};

verus! {

/// A listed entry as plain values: name, first cluster, size, directory.
pub type EntryView = (Seq<char>, u32, u32, bool);

/// The plain values of a listed entry.
pub open spec fn dirent_view(e: DirEntry32) -> EntryView {
    (e.name@, e.cluster, e.size, e.is_dir)
}

/// The plain values of a listing.
pub open spec fn listing_view(v: Seq<DirEntry32>) -> Seq<EntryView> {
    v.map_values(|e: DirEntry32| dirent_view(e))
}

/// The bytes `d[lo..hi)` as characters, up to the first space.
pub open spec fn until_space(d: Seq<u8>, lo: int, hi: int) -> Seq<char>
    decreases hi - lo,
{
    if lo >= hi || d[lo] == 0x20 {
        Seq::empty()
    } else {
        seq![d[lo] as char] + until_space(d, lo + 1, hi)
    }
}

/// The 8.3 name of the entry at `off`: the name part, and a dot and the
/// extension when the extension does not start with a space.
pub open spec fn short_name(d: Seq<u8>, off: int) -> Seq<char> {
    until_space(d, off, off + 8) + (if d[off + 8] != 0x20 {
        seq!['.'] + until_space(d, off + 8, off + 11)
    } else {
        Seq::empty()
    })
}

/// The ASCII characters among the first five UTF-16 units of the long-name
/// entry at `off`, from unit `j`, up to a 0x0000 or 0xFFFF unit.
pub open spec fn long_part(d: Seq<u8>, off: int, j: int) -> Seq<char>
    decreases 5 - j,
{
    if j >= 5 {
        Seq::empty()
    } else {
        let c = le16(d, off + 1 + 2 * j);
        if c == 0xFFFF || c == 0 {
            Seq::empty()
        } else {
            (if c < 0x80 { seq![c as char] } else { Seq::empty() }) + long_part(d, off, j + 1)
        }
    }
}

/// The listing record of the short entry at `off`, named `long` when a
/// long name was gathered before it.
pub open spec fn dir_record(d: Seq<u8>, off: int, long: Seq<char>) -> EntryView {
    (
        if long.len() > 0 { long } else { short_name(d, off) },
        (le16(d, off + 20) * 65536 + le16(d, off + 26)) as u32,
        le32(d, off + 28) as u32,
        d[off + 11] & 0x10 != 0,
    )
}

/// The entries listed from slot `i` of `n` in a directory cluster `d`,
/// with long name `long` gathered so far: slot 0x00 ends the cluster,
/// 0xE5 slots are skipped, long-name slots add to the name, hidden and
/// system entries are left out.
pub open spec fn scan_entries(d: Seq<u8>, i: int, n: int, long: Seq<char>) -> Seq<EntryView>
    decreases n - i,
{
    if i >= n {
        Seq::empty()
    } else {
        let off = 32 * i;
        if d[off] == 0 {
            Seq::empty()
        } else if d[off] == 0xE5 {
            scan_entries(d, i + 1, n, Seq::empty())
        } else if d[off + 11] == 0x0F {
            scan_entries(d, i + 1, n, long + long_part(d, off, 0))
        } else if d[off + 11] & 0x02 != 0 || d[off + 11] & 0x04 != 0 {
            scan_entries(d, i + 1, n, Seq::empty())
        } else {
            seq![dir_record(d, off, long)] + scan_entries(d, i + 1, n, Seq::empty())
        }
    }
}

/// Entry `e` is listed from a short-name slot `k` (from `i`, below `n`)
/// of directory cluster `d`: a used slot (first byte neither 0x00 nor
/// 0xE5) that is neither a long-name, hidden nor system entry; the first
/// cluster is the 16-bit high half at bytes 20..22 over the low half at
/// 26..28, the size is the whole 32-bit field at bytes 28..32, and the
/// directory flag is bit 4 of the attribute byte 11, all little endian.
pub open spec fn from_dir_slot(d: Seq<u8>, i: int, n: int, e: EntryView) -> bool {
    exists|k: int| {
        let off = #[trigger] (32 * k);
        &&& i <= k < n
        &&& d[off] != 0 && d[off] != 0xE5
        &&& d[off + 11] != 0x0F && d[off + 11] & 0x02 == 0 && d[off + 11] & 0x04 == 0
        &&& e.1 == (le16(d, off + 20) * 65536 + le16(d, off + 26)) as u32
        &&& e.2 == le32(d, off + 28) as u32
        &&& e.3 == (d[off + 11] & 0x10 != 0)
    }
}

/// Every entry a directory cluster lists comes from one of its short-name
/// slots, with that slot's cluster, size and directory flag.
pub proof fn law_scan_fields(d: Seq<u8>, i: int, n: int, long: Seq<char>)
    ensures
        forall|q: int| 0 <= q < scan_entries(d, i, n, long).len() ==> from_dir_slot(d, i, n, #[trigger] scan_entries(d, i, n, long)[q]),
    decreases n - i,
{
    if i < n {
        let off = 32 * i;
        let v = scan_entries(d, i, n, long);
        if d[off] == 0 {
        } else if d[off] == 0xE5 || d[off + 11] == 0x0F || d[off + 11] & 0x02 != 0 || d[off + 11] & 0x04 != 0 {
            let l2 = if d[off] == 0xE5 || d[off + 11] != 0x0F { Seq::<char>::empty() } else { long + long_part(d, off, 0) };
            law_scan_fields(d, i + 1, n, l2);
            assert(v == scan_entries(d, i + 1, n, l2));
            assert forall|q: int| 0 <= q < v.len() implies from_dir_slot(d, i, n, #[trigger] v[q]) by {
                assert(from_dir_slot(d, i + 1, n, v[q]));
                let k = choose|k: int| {
                    let o = #[trigger] (32 * k);
                    &&& i + 1 <= k < n
                    &&& d[o] != 0 && d[o] != 0xE5
                    &&& d[o + 11] != 0x0F && d[o + 11] & 0x02 == 0 && d[o + 11] & 0x04 == 0
                    &&& v[q].1 == (le16(d, o + 20) * 65536 + le16(d, o + 26)) as u32
                    &&& v[q].2 == le32(d, o + 28) as u32
                    &&& v[q].3 == (d[o + 11] & 0x10 != 0)
                };
                assert(32 * k == 32 * k);
            }
        } else {
            law_scan_fields(d, i + 1, n, Seq::empty());
            let rest = scan_entries(d, i + 1, n, Seq::empty());
            assert(v == seq![dir_record(d, off, long)] + rest);
            assert forall|q: int| 0 <= q < v.len() implies from_dir_slot(d, i, n, #[trigger] v[q]) by {
                if q == 0 {
                    assert(v[0] == dir_record(d, off, long));
                    assert(32 * i == off);
                } else {
                    assert(v[q] == rest[q - 1]);
                    assert(from_dir_slot(d, i + 1, n, rest[q - 1]));
                    let k = choose|k: int| {
                        let o = #[trigger] (32 * k);
                        &&& i + 1 <= k < n
                        &&& d[o] != 0 && d[o] != 0xE5
                        &&& d[o + 11] != 0x0F && d[o + 11] & 0x02 == 0 && d[o + 11] & 0x04 == 0
                        &&& rest[q - 1].1 == (le16(d, o + 20) * 65536 + le16(d, o + 26)) as u32
                        &&& rest[q - 1].2 == le32(d, o + 28) as u32
                        &&& rest[q - 1].3 == (d[o + 11] & 0x10 != 0)
                    };
                    assert(32 * k == 32 * k);
                }
            }
        }
    }
}

/// Listing the directory chain from cluster `c`, `depth` clusters in: at
/// most 1025 clusters, stopping at a cluster number below 2. `None` where
/// a sector number or FAT offset does not fit in 32 bits.
pub open spec fn dir_list(fs: Fat32Fs, img: Seq<u8>, total: int, c: int, depth: int) -> Option<Result<Seq<EntryView>, &'static str>>
    decreases 1025 - depth,
{
    if c < 2 || depth > 1024 {
        Some(Ok(Seq::empty()))
    } else if fs.sectors_per_cluster == 0 || cluster_lba(fs, c) + fs.sectors_per_cluster > u32::MAX + 1 {
        None
    } else if cluster_lba(fs, c) + fs.sectors_per_cluster > total {
        Some(Err("LBA out of range"))
    } else if fat_pos(fs, c) + 4 > u32::MAX {
        None
    } else {
        let cs = fs.sectors_per_cluster * 512;
        let here = scan_entries(cluster_prefix(fs, img, c, cs as int), 0, cs / 32, Seq::empty());
        match next_of(fs, img, total, c) {
            Err(e) => Some(Err(e)),
            Ok(n) => if n < 2 {
                Some(Ok(here))
            } else {
                match dir_list(fs, img, total, n as int, depth + 1) {
                    None => None,
                    Some(Err(e)) => Some(Err(e)),
                    Some(Ok(rest)) => Some(Ok(here + rest)),
                }
            },
        }
    }
}

/// The characters of `d[lo..hi)` up to the first space.
fn chars_until_space(d: &[u8], lo: usize, hi: usize, out: &mut Vec<char>)
    requires
        lo <= hi <= d.len(),
    ensures
        final(out)@ == old(out)@ + until_space(d@, lo as int, hi as int),
{
    let mut k = lo;
    while k < hi
        invariant
            lo <= k <= hi <= d.len(),
            old(out)@ + until_space(d@, lo as int, hi as int) == out@ + until_space(d@, k as int, hi as int),
        decreases hi - k,
    {
        if d[k] == 0x20 {
            return;
        }
        let ghost before = out@;
        out.push(d[k] as char);
        assert(before + until_space(d@, k as int, hi as int) =~= out@ + until_space(d@, k + 1, hi as int));
        k = k + 1;
    }
    assert(out@ + until_space(d@, k as int, hi as int) =~= out@);
}

/// The 8.3 name of the entry at `off`.
fn short_name_chars(d: &[u8], off: usize) -> (v: Vec<char>)
    requires
        off + 32 <= d.len(),
    ensures
        v@ == short_name(d@, off as int),
{
    let mut v: Vec<char> = Vec::new();
    chars_until_space(d, off, off + 8, &mut v);
    if d[off + 8] != 0x20 {
        v.push('.');
        chars_until_space(d, off + 8, off + 11, &mut v);
    }
    assert(v@ =~= short_name(d@, off as int));
    v
}

/// Add the long-name characters of the entry at `off` to `long`.
fn add_long_part(d: &[u8], off: usize, long: &mut Vec<char>)
    requires
        off + 32 <= d.len(),
    ensures
        final(long)@ == old(long)@ + long_part(d@, off as int, 0),
{
    let mut j: usize = 0;
    while j < 5
        invariant
            0 <= j <= 5,
            off + 32 <= d.len(),
            old(long)@ + long_part(d@, off as int, 0) == long@ + long_part(d@, off as int, j as int),
        decreases 5 - j,
    {
        let c = read_u16_le(d, off + 1 + 2 * j);
        if c == 0xFFFF || c == 0 {
            assert(long@ + long_part(d@, off as int, j as int) =~= long@);
            return;
        }
        let ghost before = long@;
        if c < 0x80 {
            long.push((c as u8) as char);
        }
        assert(before + long_part(d@, off as int, j as int) =~= long@ + long_part(d@, off as int, j + 1));
        j = j + 1;
    }
    assert(long@ + long_part(d@, off as int, j as int) =~= long@);
}

/// List the entries of one directory cluster `d` of `n` slots onto
/// `entries`.
fn scan_cluster(d: &[u8], n: usize, entries: &mut Vec<DirEntry32>)
    requires
        n * 32 <= d.len(),
    ensures
        listing_view(final(entries)@) == listing_view(old(entries)@) + scan_entries(d@, 0, n as int, Seq::empty()),
{
    let mut long: Vec<char> = Vec::new();
    let mut i: usize = 0;
    while i < n
        invariant
            0 <= i <= n,
            n * 32 <= d.len(),
            listing_view(old(entries)@) + scan_entries(d@, 0, n as int, Seq::empty())
                == listing_view(entries@) + scan_entries(d@, i as int, n as int, long@),
        decreases n - i,
    {
        let off = 32 * i;
        let ghost l0 = long@;
        let ghost before = listing_view(entries@);
        if d[off] == 0 {
            assert(before + scan_entries(d@, i as int, n as int, l0) =~= before);
            return;
        }
        if d[off] == 0xE5 {
            long = Vec::new();
        } else if d[off + 11] == 0x0F {
            add_long_part(d, off, &mut long);
        } else if d[off + 11] & 0x02 != 0 || d[off + 11] & 0x04 != 0 {
            long = Vec::new();
        } else {
            let name = if long.len() > 0 { string_of(&long) } else { string_of(&short_name_chars(d, off)) };
            let high = read_u16_le(d, off + 20);
            let low = read_u16_le(d, off + 26);
            let size = read_u32_le(d, off + 28);
            let is_dir = d[off + 11] & 0x10 != 0;
            let e = DirEntry32 { name, cluster: (high as u32) * 65536 + (low as u32), size, is_dir };
            proof {
                assert(dirent_view(e) == dir_record(d@, off as int, l0));
            }
            let ghost old_entries = entries@;
            entries.push(e);
            proof {
                assert(listing_view(entries@) =~= listing_view(old_entries).push(dirent_view(e)));
                assert(seq![dir_record(d@, off as int, l0)] + scan_entries(d@, i + 1, n as int, Seq::empty())
                    == scan_entries(d@, i as int, n as int, l0));
                assert(before + scan_entries(d@, i as int, n as int, l0)
                    =~= listing_view(entries@) + scan_entries(d@, i + 1, n as int, Seq::empty()));
            }
            long = Vec::new();
        }
        i = i + 1;
    }
    assert(listing_view(entries@) + scan_entries(d@, i as int, n as int, long@) =~= listing_view(entries@));
}

impl Fat32Fs {
    /// List the directory whose chain starts at `dir_cluster`, cluster
    /// after cluster (at most 1025).
    pub fn readdir(&self, disk: &IdeDisk, dir_cluster: u32) -> (r: Result<Vec<DirEntry32>, &'static str>)
        requires
            self.wf(),
            disk.wf(),
            dir_list(*self, disk.contents(), disk.total_view() as int, dir_cluster as int, 0) is Some,
        ensures
            match dir_list(*self, disk.contents(), disk.total_view() as int, dir_cluster as int, 0).unwrap() {
                Ok(v) => r is Ok && listing_view(r.unwrap()@) == v,
                Err(e) => r == Err::<Vec<DirEntry32>, &'static str>(e),
            },
    {
        let ghost img = disk.contents();
        let ghost total = disk.total_view() as int;
        let cs = (self.sectors_per_sector() as usize) * 512;
        let mut cluster_buf = zeroed_vec(cs);
        let mut entries: Vec<DirEntry32> = Vec::new();
        let mut cluster = dir_cluster;
        let mut depth: u32 = 0;
        loop
            invariant
                self.wf(),
                disk.wf(),
                img == disk.contents(),
                total == disk.total_view(),
                cs == self.sectors_per_cluster * 512,
                cluster_buf@.len() == cs,
                depth <= 1025,
                dir_list(*self, img, total, cluster as int, depth as int) is Some,
                dir_list(*self, img, total, dir_cluster as int, 0) == match dir_list(*self, img, total, cluster as int, depth as int) {
                    Some(Ok(rest)) => Some(Ok(listing_view(entries@) + rest)),
                    other => other,
                },
            decreases 1025 - depth,
        {
            if cluster < 2 || depth > 1024 {
                assert(listing_view(entries@) + Seq::<EntryView>::empty() =~= listing_view(entries@));
                return Ok(entries);
            }
            match self.read_cluster(disk, cluster, cluster_buf.as_mut_slice()) {
                Err(e) => {
                    return Err(e);
                },
                Ok(()) => {},
            }
            depth = depth + 1;
            let ghost acc = listing_view(entries@);
            proof {
                assert(cluster_buf@ =~= cluster_prefix(*self, img, cluster as int, cs as int));
            }
            scan_cluster(cluster_buf.as_slice(), cs / 32, &mut entries);
            let ghost here = scan_entries(cluster_buf@, 0, (cs / 32) as int, Seq::empty());
            match self.next_cluster(disk, cluster) {
                Err(e) => {
                    return Err(e);
                },
                Ok(n) => {
                    if n == 0 || n < 2 {
                        return Ok(entries);
                    }
                    proof {
                        match dir_list(*self, img, total, n as int, depth as int) {
                            Some(Ok(rest)) => {
                                assert(acc + (here + rest) =~= acc + here + rest);
                            },
                            _ => {},
                        }
                    }
                    cluster = n;
                },
            }
        }
    }
}

/// The position of the first '.' in `b` from `i`, or its length.
pub open spec fn dot_from(b: Seq<u8>, i: int) -> int
    decreases b.len() - i,
{
    if i >= b.len() {
        b.len() as int
    } else if b[i] == 0x2E {
        i
    } else {
        dot_from(b, i + 1)
    }
}

/// ASCII upper case of a byte.
pub open spec fn ascii_upper(x: u8) -> u8 {
    if 0x61 <= x <= 0x7A { (x - 32) as u8 } else { x }
}

/// The first `n` bytes of `b[lo..hi)` in upper case, padded with spaces.
pub open spec fn padded_upper(b: Seq<u8>, lo: int, hi: int, n: int) -> Seq<u8> {
    Seq::new(n as nat, |k: int| if lo + k < hi { ascii_upper(b[lo + k]) } else { 0x20u8 })
}

/// The 8.3 form of file name `b`: the part before the first dot as the
/// name, the part between the first and second dots as the extension.
pub open spec fn short_8_3(b: Seq<u8>) -> (Seq<u8>, Seq<u8>) {
    let p1 = dot_from(b, 0);
    (
        padded_upper(b, 0, p1, 8),
        if p1 < b.len() { padded_upper(b, p1 + 1, dot_from(b, p1 + 1), 3) } else { Seq::new(3, |k: int| 0x20u8) },
    )
}

/// The dot position lies between the start and the end.
pub proof fn lemma_dot_from_bounds(b: Seq<u8>, i: int)
    requires
        0 <= i <= b.len(),
    ensures
        i <= dot_from(b, i) <= b.len(),
    decreases b.len() - i,
{
    if i < b.len() && b[i] != 0x2E {
        lemma_dot_from_bounds(b, i + 1);
    }
}

fn find_dot(b: &[u8], start: usize) -> (r: usize)
    requires
        start <= b.len(),
    ensures
        r == dot_from(b@, start as int),
        start <= r <= b.len(),
{
    proof {
        lemma_dot_from_bounds(b@, start as int);
    }
    let mut i = start;
    while i < b.len()
        invariant
            start <= i <= b.len(),
            dot_from(b@, start as int) == dot_from(b@, i as int),
        decreases b.len() - i,
    {
        if b[i] == 0x2E {
            return i;
        }
        i = i + 1;
    }
    i
}

fn upper_byte(x: u8) -> (r: u8)
    ensures
        r == ascii_upper(x),
{
    if 0x61 <= x && x <= 0x7A { x - 32 } else { x }
}

/// The 8.3 name and extension of file name `name`.
pub fn to_8_3(name: &str) -> (r: ([u8; 8], [u8; 3]))
    ensures
        r.0@ == short_8_3(name.spec_bytes()).0,
        r.1@ == short_8_3(name.spec_bytes()).1,
{
    let b = name.as_bytes();
    let p1 = find_dot(b, 0);
    let mut short_name = [0x20u8; 8];
    let mut short_ext = [0x20u8; 3];
    let mut i: usize = 0;
    while i < 8
        invariant
            0 <= i <= 8,
            p1 == dot_from(b@, 0),
            p1 <= b.len(),
            short_name@.len() == 8,
            forall|k: int| 0 <= k < i ==> #[trigger] short_name@[k] == (if k < p1 { ascii_upper(b@[k]) } else { 0x20u8 }),
            forall|k: int| i <= k < 8 ==> #[trigger] short_name@[k] == 0x20u8,
        decreases 8 - i,
    {
        if i < p1 {
            short_name[i] = upper_byte(b[i]);
        }
        i = i + 1;
    }
    assert(short_name@ =~= padded_upper(b@, 0, p1 as int, 8));
    if p1 < b.len() {
        let p2 = find_dot(b, p1 + 1);
        let mut j: usize = 0;
        while j < 3
            invariant
                0 <= j <= 3,
                p1 + 1 <= p2 <= b.len(),
                short_ext@.len() == 3,
                forall|k: int| 0 <= k < j ==> #[trigger] short_ext@[k] == (if p1 + 1 + k < p2 { ascii_upper(b@[p1 + 1 + k]) } else { 0x20u8 }),
                forall|k: int| j <= k < 3 ==> #[trigger] short_ext@[k] == 0x20u8,
            decreases 3 - j,
        {
            if j < p2 - (p1 + 1) {
                short_ext[j] = upper_byte(b[p1 + 1 + j]);
            }
            j = j + 1;
        }
        assert(short_ext@ =~= padded_upper(b@, p1 + 1, p2 as int, 3));
    } else {
        assert(short_ext@ =~= Seq::new(3, |k: int| 0x20u8));
    }
    (short_name, short_ext)
}

/// Searching directory cluster `d` of `n` slots from slot `i` for the
/// entry named `nm`.`ext`: its slot, -1 when a 0x00 slot ends the
/// directory first, `n` when the cluster holds neither. Deleted (0xE5)
/// slots are passed over.
pub open spec fn find_entry(d: Seq<u8>, i: int, n: int, nm: Seq<u8>, ext: Seq<u8>) -> int
    decreases n - i,
{
    if i >= n {
        n
    } else {
        let off = 32 * i;
        if d[off] == 0 {
            -1
        } else if d[off] == 0xE5 {
            find_entry(d, i + 1, n, nm, ext)
        } else if d.subrange(off, off + 8) == nm && d.subrange(off + 8, off + 11) == ext {
            i
        } else {
            find_entry(d, i + 1, n, nm, ext)
        }
    }
}

/// Deleting the entry `nm`.`ext` from the directory chain at cluster `c`,
/// walking at most `fuel` clusters: the disk afterwards and the outcome.
/// The entry's chain is freed (its first cluster: the high 16 bits at
/// offset 20 and the low 16 bits at offset 26 of the entry, both little
/// endian), then its first byte set to 0xE5. `None` when the
/// fuel runs out or a sector number or FAT offset does not fit in 32 bits.
pub open spec fn delete_walk(fs: Fat32Fs, img: Seq<u8>, total: int, c: int, nm: Seq<u8>, ext: Seq<u8>, fuel: nat)
    -> Option<(Seq<u8>, Result<(), &'static str>)>
    decreases fuel,
{
    if fuel == 0 {
        None
    } else if c < 2 {
        Some((img, Err("invalid cluster")))
    } else if fs.sectors_per_cluster == 0 || cluster_lba(fs, c) + fs.sectors_per_cluster > u32::MAX + 1 {
        None
    } else if cluster_lba(fs, c) + fs.sectors_per_cluster > total {
        Some((img, Err("LBA out of range")))
    } else {
        let cs = fs.sectors_per_cluster * 512;
        let n = cs / 32;
        let d = cluster_prefix(fs, img, c, cs as int);
        let k = find_entry(d, 0, n as int, nm, ext);
        if k < 0 {
            Some((img, Err("file not found")))
        } else if k < n {
            let off = 32 * k;
            let cl = le16(d, off + 20) * 65536 + le16(d, off + 26);
            let freed = if cl >= 2 { chain_freed(fs, img, total, cl) } else { (img, Ok(())) };
            match freed.1 {
                Err(e) => Some((freed.0, Err(e))),
                Ok(_) => Some((with_cluster(fs, freed.0, c, d.update(off, 0xE5u8)), Ok(()))),
            }
        } else if fat_pos(fs, c) + 4 > u32::MAX {
            None
        } else {
            match next_of(fs, img, total, c) {
                Err(e) => Some((img, Err(e))),
                Ok(nx) => if nx == 0 {
                    Some((img, Err("file not found")))
                } else {
                    delete_walk(fs, img, total, nx as int, nm, ext, (fuel - 1) as nat)
                },
            }
        }
    }
}

/// Any two fuels that finish the walk give the same outcome.
pub proof fn lemma_delete_walk_unique(fs: Fat32Fs, img: Seq<u8>, total: int, c: int, nm: Seq<u8>, ext: Seq<u8>, f1: nat, f2: nat)
    requires
        delete_walk(fs, img, total, c, nm, ext, f1) is Some,
        delete_walk(fs, img, total, c, nm, ext, f2) is Some,
    ensures
        delete_walk(fs, img, total, c, nm, ext, f1) == delete_walk(fs, img, total, c, nm, ext, f2),
    decreases f1,
{
    if c >= 2 && fs.sectors_per_cluster != 0 && cluster_lba(fs, c) + fs.sectors_per_cluster <= total {
        let cs = fs.sectors_per_cluster * 512;
        let n = cs / 32;
        let d = cluster_prefix(fs, img, c, cs as int);
        if find_entry(d, 0, n as int, nm, ext) >= n && fat_pos(fs, c) + 4 <= u32::MAX {
            match next_of(fs, img, total, c) {
                Ok(nx) => if nx != 0 {
                    lemma_delete_walk_unique(fs, img, total, nx as int, nm, ext, (f1 - 1) as nat, (f2 - 1) as nat);
                },
                Err(_) => {},
            }
        }
    }
}

/// Search one directory cluster: `(true, _)` when a 0x00 slot ends the
/// directory first, else the slot found, or `n`.
fn find_slot(d: &[u8], n: usize, nm: &[u8; 8], ext: &[u8; 3]) -> (r: (bool, usize))
    requires
        n * 32 <= d.len(),
    ensures
        r.0 ==> find_entry(d@, 0, n as int, nm@, ext@) == -1,
        !r.0 ==> find_entry(d@, 0, n as int, nm@, ext@) == r.1 && r.1 <= n,
{
    let mut i: usize = 0;
    while i < n
        invariant
            0 <= i <= n,
            n * 32 <= d.len(),
            find_entry(d@, 0, n as int, nm@, ext@) == find_entry(d@, i as int, n as int, nm@, ext@),
        decreases n - i,
    {
        let off = 32 * i;
        if d[off] == 0 {
            return (true, 0);
        }
        if d[off] != 0xE5 {
            let same_name = bytes_eq(sub_slice(d, off, off + 8), nm.as_slice());
            let same_ext = bytes_eq(sub_slice(d, off + 8, off + 11), ext.as_slice());
            if same_name && same_ext {
                return (false, i);
            }
        }
        i = i + 1;
    }
    (false, n)
}

impl Fat32Fs {
    /// Delete the entry named `name` (in its 8.3 form) from the directory
    /// at `dir_cluster`: free its cluster chain and mark its slot deleted.
    pub fn delete_file_entry(&self, disk: &mut IdeDisk, dir_cluster: u32, name: &str) -> (r: Result<(), &'static str>)
        requires
            self.wf(),
            old(disk).wf(),
            exists|k: nat| #[trigger] delete_walk(*self, old(disk).contents(), old(disk).total_view() as int, dir_cluster as int,
                short_8_3(name.spec_bytes()).0, short_8_3(name.spec_bytes()).1, k) is Some,
        ensures
            final(disk).wf(),
            final(disk).total_view() == old(disk).total_view(),
            forall|k: nat| #[trigger] delete_walk(*self, old(disk).contents(), old(disk).total_view() as int, dir_cluster as int,
                short_8_3(name.spec_bytes()).0, short_8_3(name.spec_bytes()).1, k) is Some
                ==> (final(disk).contents(), r) == delete_walk(*self, old(disk).contents(), old(disk).total_view() as int,
                    dir_cluster as int, short_8_3(name.spec_bytes()).0, short_8_3(name.spec_bytes()).1, k).unwrap(),
    {
        let (short_name, short_ext) = to_8_3(name);
        let ghost img = disk.contents();
        let ghost total = disk.total_view() as int;
        let ghost nm = short_name@;
        let ghost ex = short_ext@;
        let ghost k0: nat = choose|k: nat| #[trigger] delete_walk(*self, img, total, dir_cluster as int, nm, ex, k) is Some;
        let ghost answer = delete_walk(*self, img, total, dir_cluster as int, nm, ex, k0);
        let ghost mut fuel: nat = k0;
        proof {
            assert forall|k: nat| #[trigger] delete_walk(*self, img, total, dir_cluster as int, nm, ex, k) is Some implies
                delete_walk(*self, img, total, dir_cluster as int, nm, ex, k) == answer by {
                lemma_delete_walk_unique(*self, img, total, dir_cluster as int, nm, ex, k, k0);
            }
        }
        let cs = (self.sectors_per_sector() as usize) * 512;
        let mut cluster_buf = zeroed_vec(cs);
        let mut cluster = dir_cluster;
        loop
            invariant
                self.wf(),
                disk.wf(),
                img == disk.contents(),
                img == old(disk).contents(),
                total == disk.total_view(),
                total == old(disk).total_view(),
                cs == self.sectors_per_cluster * 512,
                cluster_buf@.len() == cs,
                delete_walk(*self, img, total, cluster as int, nm, ex, fuel) is Some,
                delete_walk(*self, img, total, cluster as int, nm, ex, fuel) == answer,
                nm == short_8_3(name.spec_bytes()).0,
                ex == short_8_3(name.spec_bytes()).1,
                short_name@ == nm,
                short_ext@ == ex,
                forall|k: nat| #[trigger] delete_walk(*self, img, total, dir_cluster as int, nm, ex, k) is Some ==>
                    delete_walk(*self, img, total, dir_cluster as int, nm, ex, k) == answer,
            decreases fuel,
        {
            match self.read_cluster(disk, cluster, cluster_buf.as_mut_slice()) {
                Err(e) => {
                    return Err(e);
                },
                Ok(()) => {},
            }
            let ghost d = cluster_buf@;
            proof {
                assert(d =~= cluster_prefix(*self, img, cluster as int, cs as int));
            }
            let sl = cluster_buf.as_slice();
            let (ended, k) = find_slot(sl, cs / 32, &short_name, &short_ext);
            proof {
                assert(sl@ == d);
            }
            if ended {
                return Err("file not found");
            }
            if k < cs / 32 {
                let off = 32 * k;
                let high = read_u16_le(cluster_buf.as_slice(), off + 20);
                let low = read_u16_le(cluster_buf.as_slice(), off + 26);
                let cl = (high as u32) * 65536 + (low as u32);
                if cl >= 2 {
                    match self.free_cluster_chain(disk, cl) {
                        Err(e) => {
                            return Err(e);
                        },
                        Ok(()) => {},
                    }
                }
                let ghost freed = disk.contents();
                cluster_buf.set(off, 0xE5);
                let ghost w = cluster_buf@;
                proof {
                    assert(w =~= d.update(off as int, 0xE5u8));
                    assert(cluster_image(w, cs as int) =~= w);
                }
                let res = self.write_cluster(disk, cluster, cluster_buf.as_slice());
                proof {
                    let a = cluster_lba(*self, cluster as int) * 512;
                    assert(a + cs <= freed.len()) by (nonlinear_arith)
                        requires
                            a == cluster_lba(*self, cluster as int) * 512,
                            cluster_lba(*self, cluster as int) + self.sectors_per_cluster <= total,
                            cs == self.sectors_per_cluster * 512,
                            freed.len() == total * 512,
                    ;
                    let first = cluster_lba(*self, cluster as int);
                    assert(cs as int / 512 == self.sectors_per_cluster) by (nonlinear_arith)
                        requires
                            cs == self.sectors_per_cluster * 512,
                    ;
                    assert(run_stop(cs as int, first, self.sectors_per_cluster as int, total) == self.sectors_per_cluster);
                    let fin = disk.contents();
                    let wc = with_cluster(*self, freed, cluster as int, w);
                    assert(wc.len() == freed.len());
                    assert forall|p: int| 0 <= p < freed.len() implies fin[p] == wc[p] by {
                        if a <= p < a + cs {
                            let j = p - a;
                            assert(fin[first * 512 + j] == cluster_image(w, cs as int)[j]);
                        }
                    }
                    assert(fin =~= wc);
                    assert(res is Ok);
                    assert(delete_walk(*self, img, total, cluster as int, nm, ex, fuel) == Some((wc, Ok::<(), &'static str>(()))));

                }
                return match res {
                    Ok(()) => Ok(()),
                    Err(e) => Err(e),
                };
            }
            match self.next_cluster(disk, cluster) {
                Err(e) => {
                    return Err(e);
                },
                Ok(nx) => {
                    if nx == 0 {
                        return Err("file not found");
                    }
                    cluster = nx;
                    proof {
                        fuel = (fuel - 1) as nat;
                    }
                },
            }
        }
    }
}

/// The 32-byte short entry of a new file named `nm`.`ext` whose first
/// cluster is `fc`: attribute 0x10 for a directory, 0x20 for a file, times
/// and size zero.
pub open spec fn new_entry(nm: Seq<u8>, ext: Seq<u8>, is_dir: bool, fc: u32) -> Seq<u8> {
    nm + ext + seq![if is_dir { 0x10u8 } else { 0x20u8 }, 0u8, 0u8, 0u8, 0u8, 0u8, 0u8, 0u8, 0u8]
        + enc16(fc as int / 65536) + seq![0u8, 0u8, 0u8, 0u8] + enc16(fc as int % 65536) + seq![0u8, 0u8, 0u8, 0u8]
}

/// `d` with the 32 bytes at `off` replaced by `e`.
pub open spec fn splice(d: Seq<u8>, off: int, e: Seq<u8>) -> Seq<u8> {
    d.subrange(0, off) + e + d.subrange(off + 32, d.len() as int)
}

/// The first free slot (first byte 0x00 or 0xE5) of directory cluster `d`
/// from slot `i`, or `n`.
pub open spec fn find_free(d: Seq<u8>, i: int, n: int) -> int
    decreases n - i,
{
    if i >= n {
        n
    } else if d[32 * i] == 0 || d[32 * i] == 0xE5 {
        i
    } else {
        find_free(d, i + 1, n)
    }
}

/// `v` on success, the error otherwise.
pub open spec fn lift(r: Result<(), &'static str>, v: u32) -> Result<u32, &'static str> {
    match r {
        Ok(_) => Ok(v),
        Err(e) => Err(e),
    }
}

/// Growing a full directory whose last cluster is `c` by a new cluster
/// holding entry `ent` in its first slot: the lowest free cluster is
/// linked after `c`, marked as the end, zeroed, and written with the
/// entry. `None` where a FAT offset of `c` does not fit in 32 bits.
pub open spec fn extend_dir(fs: Fat32Fs, img: Seq<u8>, total: int, c: int, ent: Seq<u8>, fc: u32) -> Option<(Seq<u8>, Result<u32, &'static str>)> {
    let cs = fs.sectors_per_cluster * 512;
    match alloc_outcome(fs, img, total) {
        Err(e) => Some((img, Err(e))),
        Ok(nc) => if c * 4 > u32::MAX || fat_pos(fs, c) / 512 + (fs.num_fats - 1) * fs.fat_size > u32::MAX {
            None
        } else {
            let s2 = fat_set_outcome(fs, img, total, c, nc);
            if s2.1 is Err {
                Some((s2.0, lift(s2.1, fc)))
            } else {
                let s3 = fat_set_outcome(fs, s2.0, total, nc as int, FAT_EOC);
                if s3.1 is Err {
                    Some((s3.0, lift(s3.1, fc)))
                } else {
                    let zeros = Seq::new(cs as nat, |i: int| 0u8);
                    let s4 = cluster_write(fs, s3.0, total, nc as int, zeros);
                    if s4.1 is Err {
                        Some((s4.0, lift(s4.1, fc)))
                    } else {
                        let s5 = cluster_write(fs, s4.0, total, nc as int, splice(zeros, 0, ent));
                        Some((s5.0, lift(s5.1, fc)))
                    }
                }
            }
        },
    }
}

/// Putting entry `ent` in the first free slot of the directory chain at
/// cluster `c`, walking at most `fuel` clusters and growing the directory
/// when its last cluster is full. `None` when the fuel runs out or a
/// sector number or FAT offset does not fit in 32 bits.
pub open spec fn create_walk(fs: Fat32Fs, img: Seq<u8>, total: int, c: int, ent: Seq<u8>, fc: u32, fuel: nat)
    -> Option<(Seq<u8>, Result<u32, &'static str>)>
    decreases fuel,
{
    if fuel == 0 {
        None
    } else if c < 2 {
        Some((img, Err("invalid cluster")))
    } else if fs.sectors_per_cluster == 0 || cluster_lba(fs, c) + fs.sectors_per_cluster > u32::MAX + 1 {
        None
    } else if cluster_lba(fs, c) + fs.sectors_per_cluster > total {
        Some((img, Err("LBA out of range")))
    } else {
        let cs = fs.sectors_per_cluster * 512;
        let n = cs / 32;
        let d = cluster_prefix(fs, img, c, cs as int);
        let k = find_free(d, 0, n as int);
        if k < n {
            let s = cluster_write(fs, img, total, c, splice(d, 32 * k, ent));
            Some((s.0, lift(s.1, fc)))
        } else if fat_pos(fs, c) + 4 > u32::MAX {
            None
        } else {
            match next_of(fs, img, total, c) {
                Err(e) => Some((img, Err(e))),
                Ok(nx) => if nx == 0 {
                    extend_dir(fs, img, total, c, ent, fc)
                } else {
                    create_walk(fs, img, total, nx as int, ent, fc, (fuel - 1) as nat)
                },
            }
        }
    }
}

/// Creating entry `nm`.`ext` in the directory at `dir`: the lowest free
/// cluster becomes the file's, marked as the end of its chain, then the
/// entry is placed.
pub open spec fn create_outcome(fs: Fat32Fs, img: Seq<u8>, total: int, dir: int, nm: Seq<u8>, ext: Seq<u8>, is_dir: bool, fuel: nat)
    -> Option<(Seq<u8>, Result<u32, &'static str>)>
{
    match alloc_outcome(fs, img, total) {
        Err(e) => Some((img, Err(e))),
        Ok(fc) => {
            let s1 = fat_set_outcome(fs, img, total, fc as int, FAT_EOC);
            if s1.1 is Err {
                Some((s1.0, lift(s1.1, fc)))
            } else {
                create_walk(fs, s1.0, total, dir, new_entry(nm, ext, is_dir, fc), fc, fuel)
            }
        },
    }
}

/// Any two fuels that finish the walk give the same outcome.
pub proof fn lemma_create_walk_unique(fs: Fat32Fs, img: Seq<u8>, total: int, c: int, ent: Seq<u8>, fc: u32, f1: nat, f2: nat)
    requires
        create_walk(fs, img, total, c, ent, fc, f1) is Some,
        create_walk(fs, img, total, c, ent, fc, f2) is Some,
    ensures
        create_walk(fs, img, total, c, ent, fc, f1) == create_walk(fs, img, total, c, ent, fc, f2),
    decreases f1,
{
    if c >= 2 && fs.sectors_per_cluster != 0 && cluster_lba(fs, c) + fs.sectors_per_cluster <= total {
        let cs = fs.sectors_per_cluster * 512;
        let n = cs / 32;
        let d = cluster_prefix(fs, img, c, cs as int);
        if find_free(d, 0, n as int) >= n && fat_pos(fs, c) + 4 <= u32::MAX {
            match next_of(fs, img, total, c) {
                Ok(nx) => if nx != 0 {
                    lemma_create_walk_unique(fs, img, total, nx as int, ent, fc, (f1 - 1) as nat, (f2 - 1) as nat);
                },
                Err(_) => {},
            }
        }
    }
}

/// The bytes of a new entry.
fn new_entry_bytes(nm: &[u8; 8], ext: &[u8; 3], is_dir: bool, fc: u32) -> (v: Vec<u8>)
    ensures
        v@ == new_entry(nm@, ext@, is_dir, fc),
{
    let mut v: Vec<u8> = Vec::new();
    let mut i: usize = 0;
    while i < 8
        invariant
            0 <= i <= 8,
            v@ == nm@.subrange(0, i as int),
        decreases 8 - i,
    {
        v.push(nm[i]);
        i = i + 1;
        assert(v@ =~= nm@.subrange(0, i as int));
    }
    let mut j: usize = 0;
    while j < 3
        invariant
            0 <= j <= 3,
            v@ == nm@ + ext@.subrange(0, j as int),
        decreases 3 - j,
    {
        v.push(ext[j]);
        j = j + 1;
        assert(v@ =~= nm@ + ext@.subrange(0, j as int));
    }
    let ghost head = v@;
    v.push(if is_dir { 0x10u8 } else { 0x20u8 });
    let mut z: usize = 0;
    while z < 8
        invariant
            0 <= z <= 8,
            v@ == head.push(if is_dir { 0x10u8 } else { 0x20u8 }) + Seq::new(z as nat, |q: int| 0u8),
        decreases 8 - z,
    {
        v.push(0);
        z = z + 1;
        assert(v@ =~= head.push(if is_dir { 0x10u8 } else { 0x20u8 }) + Seq::new(z as nat, |q: int| 0u8));
    }
    let high = fc / 65536;
    let low = fc % 65536;
    v.push((high % 256) as u8);
    v.push((high / 256) as u8);
    v.push(0);
    v.push(0);
    v.push(0);
    v.push(0);
    v.push((low % 256) as u8);
    v.push((low / 256) as u8);
    v.push(0);
    v.push(0);
    v.push(0);
    v.push(0);
    assert(v@ =~= new_entry(nm@, ext@, is_dir, fc));
    v
}

/// Put the 32 bytes of `e` at `off` in `d`.
fn splice_into(d: &mut Vec<u8>, off: usize, e: &Vec<u8>)
    requires
        off + 32 <= old(d)@.len(),
        e@.len() == 32,
    ensures
        final(d)@ == splice(old(d)@, off as int, e@),
{
    let mut i: usize = 0;
    while i < 32
        invariant
            0 <= i <= 32,
            off + 32 <= d@.len(),
            off + 32 <= d.len(),
            d@.len() == old(d)@.len(),
            e@.len() == 32,
            forall|q: int| 0 <= q < d@.len() && !(off <= q < off + i) ==> #[trigger] d@[q] == old(d)@[q],
            forall|q: int| off <= q < off + i ==> #[trigger] d@[q] == e@[q - off],
        decreases 32 - i,
    {
        d.set(off + i, e[i]);
        i = i + 1;
    }
    assert(d@ =~= splice(old(d)@, off as int, e@));
}

/// The first free slot of directory cluster `d` of `n` slots, or `n`.
fn free_slot(d: &[u8], n: usize) -> (r: usize)
    requires
        n * 32 <= d.len(),
    ensures
        r == find_free(d@, 0, n as int),
        r <= n,
{
    let mut i: usize = 0;
    while i < n
        invariant
            0 <= i <= n,
            n * 32 <= d.len(),
            find_free(d@, 0, n as int) == find_free(d@, i as int, n as int),
        decreases n - i,
    {
        if d[32 * i] == 0 || d[32 * i] == 0xE5 {
            return i;
        }
        i = i + 1;
    }
    i
}

impl Fat32Fs {
    /// Grow the directory whose full last cluster is `c` by a new cluster
    /// holding entry `ent` first; `fc` is returned on success.
    fn extend_directory(&self, disk: &mut IdeDisk, c: u32, ent: &Vec<u8>, fc: u32) -> (r: Result<u32, &'static str>)
        requires
            self.wf(),
            old(disk).wf(),
            ent@.len() == 32,
            extend_dir(*self, old(disk).contents(), old(disk).total_view() as int, c as int, ent@, fc) is Some,
        ensures
            final(disk).wf(),
            final(disk).total_view() == old(disk).total_view(),
            Some((final(disk).contents(), r)) == extend_dir(*self, old(disk).contents(), old(disk).total_view() as int, c as int, ent@, fc),
    {
        let ghost img = disk.contents();
        let ghost total = disk.total_view() as int;
        let new_cluster = match self.alloc_cluster(disk) {
            Err(e) => {
                return Err(e);
            },
            Ok(n) => n,
        };
        proof {
            lemma_free_cluster_range(*self, img, 0, self.fat_size * 128);
        }
        match self.set_fat_entry(disk, c, new_cluster) {
            Err(e) => {
                return Err(e);
            },
            Ok(()) => {},
        }
        proof {
            assert(new_cluster * 4 <= u32::MAX && fat_pos(*self, new_cluster as int) / 512 + (self.num_fats - 1) * self.fat_size <= self.data_start)
                by (nonlinear_arith)
                requires
                    new_cluster < self.total_clusters,
                    self.total_clusters <= self.fat_size * 128,
                    self.reserved_sectors * 512 + self.fat_size * 512 <= u32::MAX,
                    fat_pos(*self, new_cluster as int) == self.reserved_sectors * 512 + new_cluster * 4,
                    self.data_start == self.reserved_sectors + self.num_fats * self.fat_size,
                    self.num_fats >= 1,
            ;
        }
        match self.mark_eoc(disk, new_cluster) {
            Err(e) => {
                return Err(e);
            },
            Ok(()) => {},
        }
        proof {
            assert(cluster_lba(*self, new_cluster as int) + self.sectors_per_cluster <= u32::MAX) by (nonlinear_arith)
                requires
                    2 <= new_cluster < self.total_clusters,
                    cluster_lba(*self, new_cluster as int) == self.data_start + (new_cluster - 2) * self.sectors_per_cluster,
                    self.data_start + self.total_clusters * self.sectors_per_cluster <= u32::MAX,
                    self.sectors_per_cluster >= 1,
            ;
        }
        let cs = (self.sectors_per_sector() as usize) * 512;
        let empty = zeroed_vec(cs);
        match self.write_cluster(disk, new_cluster, empty.as_slice()) {
            Err(e) => {
                return Err(e);
            },
            Ok(()) => {},
        }
        let mut new_buf = zeroed_vec(cs);
        splice_into(&mut new_buf, 0, ent);
        match self.write_cluster(disk, new_cluster, new_buf.as_slice()) {
            Err(e) => {
                return Err(e);
            },
            Ok(()) => {},
        }
        Ok(fc)
    }

    /// Create an entry named `name` (in its 8.3 form) in the directory at
    /// `dir_cluster`: a free cluster is taken for it and marked as the end
    /// of its chain, and the entry goes in the directory's first free slot,
    /// a new cluster being added to the directory when it is full. Returns
    /// the entry's cluster.
    pub fn create_file_entry(&self, disk: &mut IdeDisk, dir_cluster: u32, name: &str, is_dir: bool) -> (r: Result<u32, &'static str>)
        requires
            self.wf(),
            old(disk).wf(),
            exists|k: nat| #[trigger] create_outcome(*self, old(disk).contents(), old(disk).total_view() as int, dir_cluster as int,
                short_8_3(name.spec_bytes()).0, short_8_3(name.spec_bytes()).1, is_dir, k) is Some,
        ensures
            final(disk).wf(),
            final(disk).total_view() == old(disk).total_view(),
            forall|k: nat| #[trigger] create_outcome(*self, old(disk).contents(), old(disk).total_view() as int, dir_cluster as int,
                short_8_3(name.spec_bytes()).0, short_8_3(name.spec_bytes()).1, is_dir, k) is Some
                ==> (final(disk).contents(), r) == create_outcome(*self, old(disk).contents(), old(disk).total_view() as int,
                    dir_cluster as int, short_8_3(name.spec_bytes()).0, short_8_3(name.spec_bytes()).1, is_dir, k).unwrap(),
    {
        let ghost img0 = disk.contents();
        let ghost total = disk.total_view() as int;
        let file_cluster = match self.alloc_cluster(disk) {
            Err(e) => {
                return Err(e);
            },
            Ok(c) => c,
        };
        proof {
            lemma_free_cluster_range(*self, img0, 0, self.fat_size * 128);
            assert(file_cluster * 4 <= u32::MAX && fat_pos(*self, file_cluster as int) / 512 + (self.num_fats - 1) * self.fat_size <= self.data_start)
                by (nonlinear_arith)
                requires
                    file_cluster < self.total_clusters,
                    self.total_clusters <= self.fat_size * 128,
                    self.reserved_sectors * 512 + self.fat_size * 512 <= u32::MAX,
                    fat_pos(*self, file_cluster as int) == self.reserved_sectors * 512 + file_cluster * 4,
                    self.data_start == self.reserved_sectors + self.num_fats * self.fat_size,
                    self.num_fats >= 1,
            ;
        }
        match self.mark_eoc(disk, file_cluster) {
            Err(e) => {
                return Err(e);
            },
            Ok(()) => {},
        }
        let (short_name, short_ext) = to_8_3(name);
        let ent = new_entry_bytes(&short_name, &short_ext, is_dir, file_cluster);
        let ghost img1 = disk.contents();
        let ghost nm = short_name@;
        let ghost ex = short_ext@;
        let ghost k0: nat = choose|k: nat| #[trigger] create_outcome(*self, img0, total, dir_cluster as int, nm, ex, is_dir, k) is Some;
        let ghost answer = create_walk(*self, img1, total, dir_cluster as int, ent@, file_cluster, k0);
        let ghost mut fuel: nat = k0;
        proof {
            assert forall|k: nat| #[trigger] create_outcome(*self, img0, total, dir_cluster as int, nm, ex, is_dir, k) is Some implies
                create_outcome(*self, img0, total, dir_cluster as int, nm, ex, is_dir, k) == answer by {
                lemma_create_walk_unique(*self, img1, total, dir_cluster as int, ent@, file_cluster, k, k0);
            }
        }
        let cs = (self.sectors_per_sector() as usize) * 512;
        let mut cluster_buf = zeroed_vec(cs);
        let mut cluster = dir_cluster;
        loop
            invariant
                self.wf(),
                disk.wf(),
                img1 == disk.contents(),
                total == disk.total_view(),
                total == old(disk).total_view(),
                img0 == old(disk).contents(),
                cs == self.sectors_per_cluster * 512,
                cluster_buf@.len() == cs,
                ent@.len() == 32,
                nm == short_8_3(name.spec_bytes()).0,
                ex == short_8_3(name.spec_bytes()).1,
                create_walk(*self, img1, total, cluster as int, ent@, file_cluster, fuel) is Some,
                create_walk(*self, img1, total, cluster as int, ent@, file_cluster, fuel) == answer,
                forall|k: nat| #[trigger] create_outcome(*self, img0, total, dir_cluster as int, nm, ex, is_dir, k) is Some ==>
                    create_outcome(*self, img0, total, dir_cluster as int, nm, ex, is_dir, k) == answer,
            decreases fuel,
        {
            match self.read_cluster(disk, cluster, cluster_buf.as_mut_slice()) {
                Err(e) => {
                    return Err(e);
                },
                Ok(()) => {},
            }
            let ghost d = cluster_buf@;
            proof {
                assert(d =~= cluster_prefix(*self, img1, cluster as int, cs as int));
            }
            let sl = cluster_buf.as_slice();
            let slot = free_slot(sl, cs / 32);
            if slot < cs / 32 {
                splice_into(&mut cluster_buf, 32 * slot, &ent);
                let res = self.write_cluster(disk, cluster, cluster_buf.as_slice());
                return match res {
                    Ok(()) => Ok(file_cluster),
                    Err(e) => Err(e),
                };
            }
            match self.next_cluster(disk, cluster) {
                Err(e) => {
                    return Err(e);
                },
                Ok(nx) => {
                    if nx == 0 {
                        return self.extend_directory(disk, cluster, &ent, file_cluster);
                    }
                    cluster = nx;
                    proof {
                        fuel = (fuel - 1) as nat;
                    }
                },
            }
        }
    }
}

} // verus!
