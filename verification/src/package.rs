//! The Package container record: header fields, path table, the two
//! auxiliary bitstream buffers, the embedded dictionary, the compressed
//! blob, and the leaf table.

use vstd::prelude::*;
use vstd::bytes::{spec_u32_to_le_bytes, lemma_auto_spec_u32_to_from_le_bytes};
use vstd::slice::{slice_subrange, slice_to_vec};

use crate::DecodeError;
use crate::layout::{u32_le_at, read_u32_le, spec_parse_lp, parse_lp};
use crate::path::{Path, PathView, path_wf, path_record_bytes, spec_parse_path, parse_path, lemma_path_round_trip};

verus! {

/// The fixed size of the embedded decompression dictionary, carved from the
/// head of the container's compressed block.
pub const DICTIONARY_SIZE: usize = 0x100000;

/// One parsed Package container.
pub struct Package {
    /// 16-byte content fingerprint.
    pub hash: Vec<u8>,
    pub file_type: u32,
    /// Reserved field; semantics unknown, preserved for round-trip fidelity.
    pub unknown2: u32,
    /// Reserved field; semantics unknown, preserved for round-trip fidelity.
    pub unknown3: u32,
    /// Reserved field; semantics unknown, preserved for round-trip fidelity.
    pub unknown4: u32,
    /// Ordered path table, one entry per top-level entry.
    pub paths: Vec<Path>,
    /// Flag stream: two bits (present, compressed) per leaf entry.
    pub data1_raw: Vec<u8>,
    /// Size stream: varint frame sizes after a fixed 4-byte skip.
    pub data2_raw: Vec<u8>,
    /// The decompression dictionary, exactly `DICTIONARY_SIZE` bytes.
    pub zstd_dictionary: Vec<u8>,
    /// The compressed blob scanned by the frame decoder.
    pub zstd_raw_data: Vec<u8>,
    /// Leaf table; its byte count also drives the frame-decoder loop.
    pub bottom_paths_raw: Vec<u8>,
}

/// Mathematical model of a `Package`.
pub struct PackageView {
    pub hash: Seq<u8>,
    pub file_type: u32,
    pub unknown2: u32,
    pub unknown3: u32,
    pub unknown4: u32,
    pub paths: Seq<PathView>,
    pub data1_raw: Seq<u8>,
    pub data2_raw: Seq<u8>,
    pub zstd_dictionary: Seq<u8>,
    pub zstd_raw_data: Seq<u8>,
    pub bottom_paths_raw: Seq<u8>,
}

impl View for Package {
    type V = PackageView;

    open spec fn view(&self) -> PackageView {
        PackageView {
            hash: self.hash@,
            file_type: self.file_type,
            unknown2: self.unknown2,
            unknown3: self.unknown3,
            unknown4: self.unknown4,
            paths: self.paths@.map_values(|p: Path| p@),
            data1_raw: self.data1_raw@,
            data2_raw: self.data2_raw@,
            zstd_dictionary: self.zstd_dictionary@,
            zstd_raw_data: self.zstd_raw_data@,
            bottom_paths_raw: self.bottom_paths_raw@,
        }
    }
}

/// A well-formed package: field invariants established by the parser.
pub open spec fn package_wf(v: PackageView) -> bool {
    &&& v.hash.len() == 16
    &&& v.zstd_dictionary.len() == DICTIONARY_SIZE
    &&& forall|i: int| 0 <= i < v.paths.len() ==> path_wf(#[trigger] v.paths[i])
}

/// A run of `k` path records parsed from offset `off`, each advancing the
/// cursor by its own full size (`6 + length`). Yields the records and the
/// offset just past the run.
pub open spec fn spec_parse_package_paths(s: Seq<u8>, off: int, k: nat) -> Option<(Seq<PathView>, int)>
    decreases k,
{
    if k == 0 {
        Some((Seq::empty(), off))
    } else {
        match spec_parse_path(s, off) {
            Some((p, n)) => match spec_parse_package_paths(s, off + n, (k - 1) as nat) {
                Some((ps, end)) => Some((seq![p] + ps, end)),
                None => None,
            },
            None => None,
        }
    }
}

/// A Package record parsed from the start of `s`, with the offset just past
/// it. Trailing bytes after the record are ignored.
pub open spec fn spec_parse_package(s: Seq<u8>) -> Option<(PackageView, int)> {
    if s.len() < 36 {
        None
    } else {
        match spec_parse_package_paths(s, 36, u32_le_at(s, 32) as nat) {
            None => None,
            Some((paths, e0)) => match spec_parse_lp(s, e0 + 4) {
                None => None,
                Some((data1, e1)) => match spec_parse_lp(s, e1) {
                    None => None,
                    Some((data2, e2)) => match spec_parse_lp(s, e2) {
                        None => None,
                        Some((zblock, e3)) => if zblock.len() < DICTIONARY_SIZE {
                            None
                        } else {
                            match spec_parse_lp(s, e3) {
                                None => None,
                                Some((bottom, e4)) => Some((
                                    PackageView {
                                        hash: s.subrange(0, 16),
                                        file_type: u32_le_at(s, 16),
                                        unknown2: u32_le_at(s, 20),
                                        unknown3: u32_le_at(s, 24),
                                        unknown4: u32_le_at(s, 28),
                                        paths: paths,
                                        data1_raw: data1,
                                        data2_raw: data2,
                                        zstd_dictionary: zblock.subrange(0, DICTIONARY_SIZE as int),
                                        zstd_raw_data: zblock.subrange(DICTIONARY_SIZE as int, zblock.len() as int),
                                        bottom_paths_raw: bottom,
                                    },
                                    e4,
                                )),
                            }
                        },
                    },
                },
            },
        }
    }
}

/// Parses a Package container from the start of `bytes`, returning the
/// record and the offset just past it. Fails with `MalformedContainer`
/// exactly when some declared length exceeds the remaining buffer or the
/// embedded compressed block is shorter than the dictionary size.
pub fn parse_package(bytes: &[u8]) -> (r: Result<(Package, usize), DecodeError>)
    ensures
        match r {
            Ok((pkg, n)) => {
                &&& spec_parse_package(bytes@) == Some((pkg@, n as int))
                &&& n <= bytes@.len()
                &&& package_wf(pkg@)
            },
            Err(e) => spec_parse_package(bytes@) is None
                && e == DecodeError::MalformedContainer,
        },
{
    let ghost s = bytes@;
    if bytes.len() < 36 {
        return Err(DecodeError::MalformedContainer);
    }
    let hash = slice_to_vec(slice_subrange(bytes, 0, 16));
    let file_type = read_u32_le(bytes, 16);
    let unknown2 = read_u32_le(bytes, 20);
    let unknown3 = read_u32_le(bytes, 24);
    let unknown4 = read_u32_le(bytes, 28);
    let path_number = read_u32_le(bytes, 32);

    let mut paths: Vec<Path> = Vec::new();
    let mut off: usize = 36;
    let mut idx: u32 = 0;
    while idx < path_number
        invariant
            s == bytes@,
            s.len() <= usize::MAX,
            36 <= off <= s.len(),
            idx <= path_number,
            path_number == u32_le_at(s, 32),
            paths@.len() == idx,
            forall|i: int| 0 <= i < paths@.len() ==> path_wf((#[trigger] paths@[i])@),
            match spec_parse_package_paths(s, off as int, (path_number - idx) as nat) {
                Some((ps, end)) => spec_parse_package_paths(s, 36, path_number as nat)
                    == Some((paths@.map_values(|p: Path| p@) + ps, end)),
                None => spec_parse_package_paths(s, 36, path_number as nat) is None,
            },
        decreases path_number - idx,
    {
        let ghost pviews = paths@.map_values(|p: Path| p@);
        match parse_path(bytes, off) {
            Ok((p, n)) => {
                proof {
                    let (rest, end) = spec_parse_package_paths(s, off as int + n as int, (path_number - idx - 1) as nat)->Some_0;
                    if spec_parse_package_paths(s, off as int + n as int, (path_number - idx - 1) as nat) is Some {
                        assert(pviews + (seq![p@] + rest) =~= (pviews + seq![p@]) + rest);
                    }
                }
                paths.push(p);
                proof {
                    assert(paths@.map_values(|q: Path| q@) =~= pviews + seq![p@]);
                }
                off = off + n;
                idx = idx + 1;
            },
            Err(_) => {
                return Err(DecodeError::MalformedContainer);
            },
        }
    }
    proof {
        assert(paths@.map_values(|p: Path| p@) + Seq::<PathView>::empty() =~= paths@.map_values(|p: Path| p@));
    }

    // four skipped bytes precede the first length-prefixed buffer
    if bytes.len() - off < 4 {
        proof {
            assert(spec_parse_lp(s, off as int + 4) is None);
        }
        return Err(DecodeError::MalformedContainer);
    }
    let off = off + 4;
    let (data1_raw, off) = match parse_lp(bytes, off) {
        Ok(v) => v,
        Err(e) => { return Err(e); },
    };
    let (data2_raw, off) = match parse_lp(bytes, off) {
        Ok(v) => v,
        Err(e) => { return Err(e); },
    };
    let (zblock, off) = match parse_lp(bytes, off) {
        Ok(v) => v,
        Err(e) => { return Err(e); },
    };
    if zblock.len() < DICTIONARY_SIZE {
        return Err(DecodeError::MalformedContainer);
    }
    let zstd_dictionary = slice_to_vec(slice_subrange(zblock.as_slice(), 0, DICTIONARY_SIZE));
    let zstd_raw_data = slice_to_vec(slice_subrange(zblock.as_slice(), DICTIONARY_SIZE, zblock.len()));
    let (bottom_paths_raw, off) = match parse_lp(bytes, off) {
        Ok(v) => v,
        Err(e) => { return Err(e); },
    };
    Ok((
        Package {
            hash,
            file_type,
            unknown2,
            unknown3,
            unknown4,
            paths,
            data1_raw,
            data2_raw,
            zstd_dictionary,
            zstd_raw_data,
            bottom_paths_raw,
        },
        off,
    ))
}

/// The serialized form of a run of package path records.
pub open spec fn package_paths_bytes(ps: Seq<PathView>) -> Seq<u8>
    decreases ps.len(),
{
    if ps.len() == 0 {
        Seq::empty()
    } else {
        path_record_bytes(ps[0]) + package_paths_bytes(ps.subrange(1, ps.len() as int))
    }
}

/// The serialized form of a Package under the same layout rules the parser
/// uses. `pad` stands for the four skipped bytes between the path table and
/// the flag stream, which no parsed field retains.
pub open spec fn package_bytes(v: PackageView, pad: Seq<u8>) -> Seq<u8> {
    v.hash
        + spec_u32_to_le_bytes(v.file_type)
        + spec_u32_to_le_bytes(v.unknown2)
        + spec_u32_to_le_bytes(v.unknown3)
        + spec_u32_to_le_bytes(v.unknown4)
        + spec_u32_to_le_bytes(v.paths.len() as u32)
        + package_paths_bytes(v.paths)
        + pad
        + spec_u32_to_le_bytes(v.data1_raw.len() as u32)
        + v.data1_raw
        + spec_u32_to_le_bytes(v.data2_raw.len() as u32)
        + v.data2_raw
        + spec_u32_to_le_bytes((v.zstd_dictionary.len() + v.zstd_raw_data.len()) as u32)
        + v.zstd_dictionary
        + v.zstd_raw_data
        + spec_u32_to_le_bytes(v.bottom_paths_raw.len() as u32)
        + v.bottom_paths_raw
}

proof fn lemma_package_paths_round_trip(s: Seq<u8>, off: int, k: nat)
    requires
        spec_parse_package_paths(s, off, k) is Some,
        0 <= off <= s.len(),
    ensures
        ({
            let (ps, end) = spec_parse_package_paths(s, off, k)->Some_0;
            &&& ps.len() == k
            &&& off <= end <= s.len()
            &&& s.subrange(off, end) == package_paths_bytes(ps)
        }),
    decreases k,
{
    if k == 0 {
        assert(s.subrange(off, off) =~= package_paths_bytes(Seq::empty()));
    } else {
        let (p, n) = spec_parse_path(s, off)->Some_0;
        lemma_path_round_trip(s, off);
        lemma_package_paths_round_trip(s, off + n, (k - 1) as nat);
        let (rest, end) = spec_parse_package_paths(s, off + n, (k - 1) as nat)->Some_0;
        let ps = seq![p] + rest;
        assert(ps[0] == p);
        assert(ps.subrange(1, ps.len() as int) =~= rest);
        assert(s.subrange(off, end) =~= s.subrange(off, off + n) + s.subrange(off + n, end));
    }
}

/// Law: re-serializing the parsed fields of a Package with the same layout
/// rules, together with the four skipped bytes, reproduces exactly the bytes
/// the record was parsed from.
pub proof fn lemma_package_round_trip(s: Seq<u8>)
    requires
        spec_parse_package(s) is Some,
    ensures
        ({
            let (v, n) = spec_parse_package(s)->Some_0;
            exists|pad: Seq<u8>| pad.len() == 4 && s.subrange(0, n) == package_bytes(v, pad)
        }),
{
    lemma_auto_spec_u32_to_from_le_bytes();
    let (v, n) = spec_parse_package(s)->Some_0;
    let k = u32_le_at(s, 32) as nat;
    let (paths, e0) = spec_parse_package_paths(s, 36, k)->Some_0;
    lemma_package_paths_round_trip(s, 36, k);
    let pad = s.subrange(e0, e0 + 4);
    let (data1, e1) = spec_parse_lp(s, e0 + 4)->Some_0;
    let (data2, e2) = spec_parse_lp(s, e1)->Some_0;
    let (zblock, e3) = spec_parse_lp(s, e2)->Some_0;
    let (bottom, e4) = spec_parse_lp(s, e3)->Some_0;
    assert(v.paths.len() == k);
    assert(spec_u32_to_le_bytes(v.paths.len() as u32) == s.subrange(32, 36));
    assert(spec_u32_to_le_bytes(v.data1_raw.len() as u32) == s.subrange(e0 + 4, e0 + 8));
    assert(spec_u32_to_le_bytes(v.data2_raw.len() as u32) == s.subrange(e1, e1 + 4));
    assert(v.zstd_dictionary.len() + v.zstd_raw_data.len() == zblock.len());
    assert(spec_u32_to_le_bytes((v.zstd_dictionary.len() + v.zstd_raw_data.len()) as u32) == s.subrange(e2, e2 + 4));
    assert(spec_u32_to_le_bytes(v.bottom_paths_raw.len() as u32) == s.subrange(e3, e3 + 4));
    assert(v.zstd_dictionary + v.zstd_raw_data =~= zblock);
    assert(s.subrange(0, n) =~= package_bytes(v, pad));
    assert(pad.len() == 4 && s.subrange(0, n) == package_bytes(v, pad));
}

} // verus!
