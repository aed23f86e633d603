//! The on-disk formats read at boot: the SimpleFS superblock and file table,
//! and the package header with the SHA-256 digest of its binary.
use vstd::prelude::*;
use crate::sha256::{sha256, sha256_digest};

verus! {

/// "SFS1" read as a little-endian word.
pub const SFS_MAGIC: u32 = 0x5346_5331;

/// "PKG\x01" read as a little-endian word.
pub const PKG_MAGIC: u32 = 0x0147_4B50;

/// Most entries a file table holds.
pub const MAX_FILES: u32 = 16;

/// Bytes per file-table entry.
pub const FILE_ENTRY_SIZE: usize = 32;

/// Bytes of the NUL-padded name at the start of an entry.
pub const FILE_NAME_SIZE: usize = 24;

/// Bytes of a package header.
pub const PKG_HEADER_SIZE: usize = 64;

/// Largest package binary: what fits in one sector's page after the header.
pub const PKG_MAX_BIN: u32 = 4032;

/// The little-endian word at byte `i` of `b`.
pub open spec fn le_u32(b: Seq<u8>, i: int) -> u32 {
    (b[i] as u32) | ((b[i + 1] as u32) << 8u32) | ((b[i + 2] as u32) << 16u32) | ((b[i
        + 3] as u32) << 24u32)
}

/// Reads the little-endian word at byte `i` of `b`.
pub fn read_le_u32(b: &[u8], i: usize) -> (r: u32)
    requires
        i + 4 <= b@.len(),
    ensures
        r == le_u32(b@, i as int),
{
    (b[i] as u32) | ((b[i + 1] as u32) << 8u32) | ((b[i + 2] as u32) << 16u32) | ((b[i
        + 3] as u32) << 24u32)
}

/// Checks the superblock magic and returns the file count.
pub fn parse_superblock(sector: &[u8]) -> (r: Option<u32>)
    ensures
        r is Some <==> sector@.len() >= 8 && le_u32(sector@, 0) == SFS_MAGIC,
        r is Some ==> r.unwrap() == le_u32(sector@, 4),
{
    if sector.len() < 8 {
        return None;
    }
    if read_le_u32(sector, 0) != SFS_MAGIC {
        return None;
    }
    Some(read_le_u32(sector, 4))
}

/// Where a file lies on disk.
#[derive(Clone, Copy, PartialEq, Eq, Structural, Debug)]
pub struct FileEntry {
    pub start_sector: u32,
    pub length: u32,
}

/// Entry `i` of `table` is named `name`: its name field starts with the
/// bytes of `name` and is NUL-padded after them.
pub open spec fn entry_named(table: Seq<u8>, i: int, name: Seq<u8>) -> bool {
    let base = FILE_ENTRY_SIZE * i;
    &&& table.subrange(base, base + name.len()) == name
    &&& (name.len() == FILE_NAME_SIZE || table[base + name.len()] == 0)
}

/// Entries of `table` that are searched: the file count, capped at
/// `MAX_FILES` and at what the table holds.
pub open spec fn searched_entries(table: Seq<u8>, file_count: u32) -> int {
    let fc = if file_count > MAX_FILES { MAX_FILES as int } else { file_count as int };
    if fc * FILE_ENTRY_SIZE <= table.len() {
        fc
    } else {
        table.len() as int / FILE_ENTRY_SIZE as int
    }
}

/// Whether `name` matches entry `i` of `table`.
fn entry_matches(table: &[u8], i: usize, name: &[u8]) -> (r: bool)
    requires
        1 <= name@.len() <= FILE_NAME_SIZE,
        FILE_ENTRY_SIZE * i + FILE_ENTRY_SIZE <= table@.len(),
    ensures
        r == entry_named(table@, i as int, name@),
{
    let tl = table.len();
    assert(FILE_ENTRY_SIZE * i + FILE_ENTRY_SIZE <= tl);
    let base = i * FILE_ENTRY_SIZE;
    let n = name.len();
    let mut k: usize = 0;
    while k < n
        invariant
            k <= n == name@.len() <= FILE_NAME_SIZE,
            base == FILE_ENTRY_SIZE * i,
            base + FILE_ENTRY_SIZE <= table@.len(),
            forall|j: int| 0 <= j < k ==> table@[base + j] == name@[j],
        decreases n - k,
    {
        if table[base + k] != name[k] {
            assert(table@.subrange(base as int, base + n)[k as int] != name@[k as int]);
            return false;
        }
        k = k + 1;
    }
    assert(table@.subrange(base as int, base + n) =~= name@);
    n == FILE_NAME_SIZE || table[base + n] == 0
}

/// Looks `name` up in a file table of `file_count` entries; returns the
/// first matching entry's start sector and length.
pub fn find_file(table: &[u8], file_count: u32, name: &[u8]) -> (r: Option<FileEntry>)
    requires
        1 <= name@.len() <= FILE_NAME_SIZE,
    ensures
        match r {
            Some(e) => exists|i: int|
                0 <= i < searched_entries(table@, file_count) && entry_named(table@, i, name@)
                    && (forall|j: int| 0 <= j < i ==> !#[trigger] entry_named(table@, j, name@))
                    && e.start_sector == le_u32(table@, FILE_ENTRY_SIZE * i + 24) && e.length
                    == le_u32(table@, FILE_ENTRY_SIZE * i + 28),
            None => forall|i: int|
                0 <= i < searched_entries(table@, file_count) ==> !#[trigger] entry_named(
                    table@,
                    i,
                    name@,
                ),
        },
{
    let fc: usize = if file_count > MAX_FILES { MAX_FILES as usize } else { file_count as usize };
    let avail = table.len() / FILE_ENTRY_SIZE;
    let count = if fc <= avail { fc } else { avail };
    assert(count == searched_entries(table@, file_count));
    let mut i: usize = 0;
    while i < count
        invariant
            i <= count,
            count == searched_entries(table@, file_count),
            count * FILE_ENTRY_SIZE <= table@.len(),
            1 <= name@.len() <= FILE_NAME_SIZE,
            forall|j: int| 0 <= j < i ==> !#[trigger] entry_named(table@, j, name@),
        decreases count - i,
    {
        if entry_matches(table, i, name) {
            let base = i * FILE_ENTRY_SIZE;
            return Some(
                FileEntry {
                    start_sector: read_le_u32(table, base + 24),
                    length: read_le_u32(table, base + 28),
                },
            );
        }
        i = i + 1;
    }
    None
}

/// Why a package is refused.
#[derive(Clone, Copy, PartialEq, Eq, Structural, Debug)]
pub enum PkgError {
    /// The sector is too short for a header, or the magic is wrong.
    BadMagic,
    /// The binary size is zero, too large, or past the sector.
    BadSize,
    /// The binary's digest differs from the header's.
    BadHash,
}

/// The binary size a package header gives, when usable: 1 to
/// `PKG_MAX_BIN` bytes, within the sector.
pub open spec fn pkg_size_ok(sector: Seq<u8>) -> bool {
    let n = le_u32(sector, 4);
    1 <= n <= PKG_MAX_BIN && PKG_HEADER_SIZE + n <= sector.len()
}

/// The binary of the package in `sector`.
pub open spec fn pkg_binary(sector: Seq<u8>) -> Seq<u8> {
    sector.subrange(PKG_HEADER_SIZE as int, PKG_HEADER_SIZE + le_u32(sector, 4))
}

/// Checks the package in `sector` and returns the size of its binary,
/// which follows the 64-byte header.  The header holds the magic, the size,
/// a 24-byte name and the SHA-256 digest of the binary.
pub fn verify_pkg(sector: &[u8]) -> (r: Result<usize, PkgError>)
    ensures
        ({
            let s = sector@;
            let magic_ok = s.len() >= PKG_HEADER_SIZE && le_u32(s, 0) == PKG_MAGIC;
            match r {
                Err(PkgError::BadMagic) => !magic_ok,
                Err(PkgError::BadSize) => magic_ok && !pkg_size_ok(s),
                Err(PkgError::BadHash) => magic_ok && pkg_size_ok(s) && sha256(pkg_binary(s))
                    != s.subrange(32, 64),
                Ok(n) => magic_ok && pkg_size_ok(s) && n == le_u32(s, 4) && sha256(pkg_binary(s))
                    == s.subrange(32, 64),
            }
        }),
{
    if sector.len() < PKG_HEADER_SIZE {
        return Err(PkgError::BadMagic);
    }
    if read_le_u32(sector, 0) != PKG_MAGIC {
        return Err(PkgError::BadMagic);
    }
    let bin_size = read_le_u32(sector, 4) as usize;
    if bin_size == 0 || bin_size > PKG_MAX_BIN as usize || bin_size > sector.len() - PKG_HEADER_SIZE {
        return Err(PkgError::BadSize);
    }
    let (_head, rest) = sector.split_at(PKG_HEADER_SIZE);
    let (bin, _tail) = rest.split_at(bin_size);
    assert(bin@ =~= pkg_binary(sector@));
    let digest = sha256_digest(bin);
    let mut i: usize = 0;
    while i < 32
        invariant
            i <= 32,
            sector@.len() >= PKG_HEADER_SIZE,
            le_u32(sector@, 0) == PKG_MAGIC,
            pkg_size_ok(sector@),
            bin_size == le_u32(sector@, 4),
            digest@ == sha256(pkg_binary(sector@)),
            forall|j: int| 0 <= j < i ==> digest@[j] == sector@[32 + j],
        decreases 32 - i,
    {
        if digest[i] != sector[32 + i] {
            assert(digest@[i as int] != sector@.subrange(32, 64)[i as int]);
            return Err(PkgError::BadHash);
        }
        i = i + 1;
    }
    assert(digest@ =~= sector@.subrange(32, 64));
    Ok(bin_size)
}

} // verus!
