//! The Language container record: a shared header prefix, a table of
//! language path entries, an embedded dictionary, and an ordered list of
//! sections, each carrying a title, a data blob, and localization headers.

use vstd::prelude::*;
use vstd::bytes::{spec_u16_to_le_bytes, spec_u32_to_le_bytes, lemma_auto_spec_u16_to_from_le_bytes, lemma_auto_spec_u32_to_from_le_bytes};
use vstd::slice::{slice_subrange, slice_to_vec, slice_index_get};

use crate::DecodeError;
use crate::layout::{u16_le_at, u32_le_at, read_u16_le, read_u32_le, spec_parse_lp, parse_lp, lp_bytes, lemma_lp_round_trip};
use crate::path::{Path, PathView, path_wf, spec_parse_path, parse_path};

verus! {

/// One entry of a section's localization table: a unique name and the
/// position and length of its record inside the section's data blob.
pub struct LocalizationHeader {
    pub unique_name_length: u32,
    pub unique_name: Vec<u8>,
    pub localization_position: u32,
    pub localization_length: u16,
    /// Reserved byte; meaning unknown, preserved.
    pub unknown1: u8,
    /// Compression-type tag of the addressed record.
    pub compression_type: u8,
}

/// Mathematical model of a `LocalizationHeader`.
pub struct LocalizationHeaderView {
    pub unique_name_length: u32,
    pub unique_name: Seq<u8>,
    pub localization_position: u32,
    pub localization_length: u16,
    pub unknown1: u8,
    pub compression_type: u8,
}

impl View for LocalizationHeader {
    type V = LocalizationHeaderView;

    open spec fn view(&self) -> LocalizationHeaderView {
        LocalizationHeaderView {
            unique_name_length: self.unique_name_length,
            unique_name: self.unique_name@,
            localization_position: self.localization_position,
            localization_length: self.localization_length,
            unknown1: self.unknown1,
            compression_type: self.compression_type,
        }
    }
}

/// One section of a Language container.
pub struct Section {
    pub title_length: u32,
    pub title: Vec<u8>,
    pub data_length: u32,
    pub data: Vec<u8>,
    pub localization_header_number: u32,
    pub localization_headers: Vec<LocalizationHeader>,
    /// Total size of the serialized section, used by the outer parser to
    /// advance its cursor.
    pub _length: u32,
}

/// Mathematical model of a `Section`.
pub struct SectionView {
    pub title_length: u32,
    pub title: Seq<u8>,
    pub data_length: u32,
    pub data: Seq<u8>,
    pub localization_header_number: u32,
    pub localization_headers: Seq<LocalizationHeaderView>,
    pub _length: u32,
}

impl View for Section {
    type V = SectionView;

    open spec fn view(&self) -> SectionView {
        SectionView {
            title_length: self.title_length,
            title: self.title@,
            data_length: self.data_length,
            data: self.data@,
            localization_header_number: self.localization_header_number,
            localization_headers: self.localization_headers@.map_values(|h: LocalizationHeader| h@),
            _length: self._length,
        }
    }
}

/// One parsed Language container.
pub struct Language {
    /// 16-byte content fingerprint.
    pub hash: Vec<u8>,
    /// Reserved field; semantics unknown, preserved.
    pub unknown1: u32,
    /// Reserved field; semantics unknown, preserved.
    pub unknown2: u32,
    /// Reserved field; semantics unknown, preserved.
    pub unknown3: u32,
    pub lang_number: u32,
    /// Language path entries; the outer parser advances by `4 + length` per
    /// entry, re-reading each entry's two metadata bytes as part of the next
    /// field.
    pub langs: Vec<Path>,
    pub zstd_dictionary_length: u32,
    pub zstd_dictionary: Vec<u8>,
    pub section_number: u32,
    pub sections: Vec<Section>,
}

/// Mathematical model of a `Language`.
pub struct LanguageView {
    pub hash: Seq<u8>,
    pub unknown1: u32,
    pub unknown2: u32,
    pub unknown3: u32,
    pub lang_number: u32,
    pub langs: Seq<PathView>,
    pub zstd_dictionary_length: u32,
    pub zstd_dictionary: Seq<u8>,
    pub section_number: u32,
    pub sections: Seq<SectionView>,
}

impl View for Language {
    type V = LanguageView;

    open spec fn view(&self) -> LanguageView {
        LanguageView {
            hash: self.hash@,
            unknown1: self.unknown1,
            unknown2: self.unknown2,
            unknown3: self.unknown3,
            lang_number: self.lang_number,
            langs: self.langs@.map_values(|p: Path| p@),
            zstd_dictionary_length: self.zstd_dictionary_length,
            zstd_dictionary: self.zstd_dictionary@,
            section_number: self.section_number,
            sections: self.sections@.map_values(|c: Section| c@),
        }
    }
}

/// A well-formed localization header: the declared name length matches.
pub open spec fn loc_header_wf(h: LocalizationHeaderView) -> bool {
    h.unique_name.len() == h.unique_name_length
}

/// A well-formed section: every declared count matches what was parsed.
pub open spec fn section_wf(c: SectionView) -> bool {
    &&& c.title.len() == c.title_length
    &&& c.data.len() == c.data_length
    &&& c.localization_headers.len() == c.localization_header_number
    &&& forall|i: int| 0 <= i < c.localization_headers.len() ==> loc_header_wf(#[trigger] c.localization_headers[i])
}

/// A well-formed language: every declared count matches what was parsed.
pub open spec fn language_wf(v: LanguageView) -> bool {
    &&& v.hash.len() == 16
    &&& v.langs.len() == v.lang_number
    &&& v.zstd_dictionary.len() == v.zstd_dictionary_length
    &&& v.sections.len() == v.section_number
    &&& forall|i: int| 0 <= i < v.langs.len() ==> path_wf(#[trigger] v.langs[i])
    &&& forall|i: int| 0 <= i < v.sections.len() ==> section_wf(#[trigger] v.sections[i])
}

/// A localization header parsed at offset `off`, with its full size
/// (`12 + unique_name_length`).
pub open spec fn spec_parse_loc_header(s: Seq<u8>, off: int) -> Option<(LocalizationHeaderView, int)> {
    if off < 0 || off + 4 > s.len() {
        None
    } else {
        let l = u32_le_at(s, off) as int;
        if off + 12 + l > s.len() {
            None
        } else {
            Some((
                LocalizationHeaderView {
                    unique_name_length: u32_le_at(s, off),
                    unique_name: s.subrange(off + 4, off + 4 + l),
                    localization_position: u32_le_at(s, off + 4 + l),
                    localization_length: u16_le_at(s, off + 8 + l),
                    unknown1: s[off + 10 + l],
                    compression_type: s[off + 11 + l],
                },
                12 + l,
            ))
        }
    }
}

/// Parses one localization header at `off`, returning it and its full size.
pub fn parse_loc_header(bytes: &[u8], off: usize) -> (r: Result<(LocalizationHeader, usize), DecodeError>)
    requires
        off <= bytes@.len(),
    ensures
        match r {
            Ok((h, n)) => spec_parse_loc_header(bytes@, off as int) == Some((h@, n as int))
                && loc_header_wf(h@)
                && off + n <= bytes@.len(),
            Err(e) => spec_parse_loc_header(bytes@, off as int) is None
                && e == DecodeError::MalformedContainer,
        },
{
    if bytes.len() - off < 4 {
        return Err(DecodeError::MalformedContainer);
    }
    let unique_name_length = read_u32_le(bytes, off);
    let l = unique_name_length as usize;
    if bytes.len() - off < 12 || bytes.len() - off - 12 < l {
        return Err(DecodeError::MalformedContainer);
    }
    let unique_name = slice_to_vec(slice_subrange(bytes, off + 4, off + 4 + l));
    let localization_position = read_u32_le(bytes, off + 4 + l);
    let localization_length = read_u16_le(bytes, off + 8 + l);
    let unknown1 = *slice_index_get(bytes, off + 10 + l);
    let compression_type = *slice_index_get(bytes, off + 11 + l);
    Ok((
        LocalizationHeader {
            unique_name_length,
            unique_name,
            localization_position,
            localization_length,
            unknown1,
            compression_type,
        },
        12 + l,
    ))
}

/// A run of `k` localization headers parsed from offset `off`.
pub open spec fn spec_parse_loc_headers(s: Seq<u8>, off: int, k: nat) -> Option<(Seq<LocalizationHeaderView>, int)>
    decreases k,
{
    if k == 0 {
        Some((Seq::empty(), off))
    } else {
        match spec_parse_loc_header(s, off) {
            Some((h, n)) => match spec_parse_loc_headers(s, off + n, (k - 1) as nat) {
                Some((hs, end)) => Some((seq![h] + hs, end)),
                None => None,
            },
            None => None,
        }
    }
}

/// A section parsed at offset `off`, with the offset just past it. The
/// serialized size must fit the section's 32-bit length field.
pub open spec fn spec_parse_section(s: Seq<u8>, off: int) -> Option<(SectionView, int)> {
    match spec_parse_lp(s, off) {
        None => None,
        Some((title, e1)) => match spec_parse_lp(s, e1) {
            None => None,
            Some((data, e2)) => if e2 + 4 > s.len() {
                None
            } else {
                match spec_parse_loc_headers(s, e2 + 4, u32_le_at(s, e2) as nat) {
                    None => None,
                    Some((hs, end)) => if end - off > u32::MAX {
                        None
                    } else {
                        Some((
                            SectionView {
                                title_length: u32_le_at(s, off),
                                title: title,
                                data_length: u32_le_at(s, e1),
                                data: data,
                                localization_header_number: u32_le_at(s, e2),
                                localization_headers: hs,
                                _length: (end - off) as u32,
                            },
                            end,
                        ))
                    },
                }
            },
        },
    }
}

/// Parses one section at `off`, returning it and the offset just past it.
pub fn parse_section(bytes: &[u8], off: usize) -> (r: Result<(Section, usize), DecodeError>)
    requires
        off <= bytes@.len(),
    ensures
        match r {
            Ok((c, end)) => spec_parse_section(bytes@, off as int) == Some((c@, end as int))
                && section_wf(c@)
                && off <= end <= bytes@.len(),
            Err(e) => spec_parse_section(bytes@, off as int) is None
                && e == DecodeError::MalformedContainer,
        },
{
    let ghost s = bytes@;
    let (title, e1) = match parse_lp(bytes, off) {
        Ok(v) => v,
        Err(e) => { return Err(e); },
    };
    let (data, e2) = match parse_lp(bytes, e1) {
        Ok(v) => v,
        Err(e) => { return Err(e); },
    };
    if bytes.len() - e2 < 4 {
        return Err(DecodeError::MalformedContainer);
    }
    let localization_header_number = read_u32_le(bytes, e2);
    let mut localization_headers: Vec<LocalizationHeader> = Vec::new();
    let mut cur: usize = e2 + 4;
    let mut idx: u32 = 0;
    while idx < localization_header_number
        invariant
            s == bytes@,
            s.len() <= usize::MAX,
            off <= e2 && e2 as int + 4 <= s.len(),
            e2 + 4 <= cur <= s.len(),
            spec_parse_lp(s, off as int) == Some((title@, e1 as int)),
            spec_parse_lp(s, e1 as int) == Some((data@, e2 as int)),
            localization_header_number == u32_le_at(s, e2 as int),
            idx <= localization_header_number,
            localization_headers@.len() == idx,
            forall|i: int| 0 <= i < localization_headers@.len()
                ==> loc_header_wf((#[trigger] localization_headers@[i])@),
            match spec_parse_loc_headers(s, cur as int, (localization_header_number - idx) as nat) {
                Some((hs, end)) => spec_parse_loc_headers(s, e2 as int + 4, localization_header_number as nat)
                    == Some((localization_headers@.map_values(|h: LocalizationHeader| h@) + hs, end)),
                None => spec_parse_loc_headers(s, e2 as int + 4, localization_header_number as nat) is None,
            },
        decreases localization_header_number - idx,
    {
        let ghost hviews = localization_headers@.map_values(|h: LocalizationHeader| h@);
        match parse_loc_header(bytes, cur) {
            Ok((h, n)) => {
                proof {
                    if spec_parse_loc_headers(s, cur as int + n as int, (localization_header_number - idx - 1) as nat) is Some {
                        let (rest, end) = spec_parse_loc_headers(s, cur as int + n as int, (localization_header_number - idx - 1) as nat)->Some_0;
                        assert(hviews + (seq![h@] + rest) =~= (hviews + seq![h@]) + rest);
                    }
                }
                localization_headers.push(h);
                proof {
                    assert(localization_headers@.map_values(|g: LocalizationHeader| g@) =~= hviews + seq![h@]);
                }
                cur = cur + n;
                idx = idx + 1;
            },
            Err(_) => {
                return Err(DecodeError::MalformedContainer);
            },
        }
    }
    proof {
        assert(localization_headers@.map_values(|h: LocalizationHeader| h@) + Seq::<LocalizationHeaderView>::empty()
            =~= localization_headers@.map_values(|h: LocalizationHeader| h@));
    }
    if cur - off > 0xFFFF_FFFFusize {
        return Err(DecodeError::MalformedContainer);
    }
    let title_length = read_u32_le(bytes, off);
    let data_length = read_u32_le(bytes, e1);
    Ok((
        Section {
            title_length,
            title,
            data_length,
            data,
            localization_header_number,
            localization_headers,
            _length: (cur - off) as u32,
        },
        cur,
    ))
}

/// A run of `k` sections parsed from offset `off`.
pub open spec fn spec_parse_sections(s: Seq<u8>, off: int, k: nat) -> Option<(Seq<SectionView>, int)>
    decreases k,
{
    if k == 0 {
        Some((Seq::empty(), off))
    } else {
        match spec_parse_section(s, off) {
            Some((c, end)) => match spec_parse_sections(s, end, (k - 1) as nat) {
                Some((cs, e2)) => Some((seq![c] + cs, e2)),
                None => None,
            },
            None => None,
        }
    }
}

/// A run of `k` language path entries parsed from offset `off`. Each entry
/// is read as a full path record (including its two metadata bytes) but the
/// cursor advances only by `4 + length`, so the metadata bytes are re-read
/// as part of whatever follows.
pub open spec fn spec_parse_lang_paths(s: Seq<u8>, off: int, k: nat) -> Option<(Seq<PathView>, int)>
    decreases k,
{
    if k == 0 {
        Some((Seq::empty(), off))
    } else {
        match spec_parse_path(s, off) {
            Some((p, n)) => match spec_parse_lang_paths(s, off + n - 2, (k - 1) as nat) {
                Some((ps, end)) => Some((seq![p] + ps, end)),
                None => None,
            },
            None => None,
        }
    }
}

/// A Language record parsed from the start of `s`, with the offset just
/// past it. Trailing bytes after the record are ignored.
pub open spec fn spec_parse_language(s: Seq<u8>) -> Option<(LanguageView, int)> {
    if s.len() < 32 {
        None
    } else {
        match spec_parse_lang_paths(s, 32, u32_le_at(s, 28) as nat) {
            None => None,
            Some((langs, e0)) => match spec_parse_lp(s, e0) {
                None => None,
                Some((dict, e1)) => if e1 + 4 > s.len() {
                    None
                } else {
                    match spec_parse_sections(s, e1 + 4, u32_le_at(s, e1) as nat) {
                        None => None,
                        Some((sections, e2)) => Some((
                            LanguageView {
                                hash: s.subrange(0, 16),
                                unknown1: u32_le_at(s, 16),
                                unknown2: u32_le_at(s, 20),
                                unknown3: u32_le_at(s, 24),
                                lang_number: u32_le_at(s, 28),
                                langs: langs,
                                zstd_dictionary_length: u32_le_at(s, e0),
                                zstd_dictionary: dict,
                                section_number: u32_le_at(s, e1),
                                sections: sections,
                            },
                            e2,
                        )),
                    }
                },
            },
        }
    }
}

/// Parses a Language container from the start of `bytes`, returning the
/// record and the offset just past it. Fails with `MalformedContainer`
/// exactly when some declared length or count exceeds the remaining buffer.
pub fn parse_language(bytes: &[u8]) -> (r: Result<(Language, usize), DecodeError>)
    ensures
        match r {
            Ok((lang, n)) => {
                &&& spec_parse_language(bytes@) == Some((lang@, n as int))
                &&& n <= bytes@.len()
                &&& language_wf(lang@)
            },
            Err(e) => spec_parse_language(bytes@) is None
                && e == DecodeError::MalformedContainer,
        },
{
    let ghost s = bytes@;
    if bytes.len() < 32 {
        return Err(DecodeError::MalformedContainer);
    }
    let hash = slice_to_vec(slice_subrange(bytes, 0, 16));
    let unknown1 = read_u32_le(bytes, 16);
    let unknown2 = read_u32_le(bytes, 20);
    let unknown3 = read_u32_le(bytes, 24);
    let lang_number = read_u32_le(bytes, 28);

    let mut langs: Vec<Path> = Vec::new();
    let mut off: usize = 32;
    let mut idx: u32 = 0;
    while idx < lang_number
        invariant
            s == bytes@,
            s.len() <= usize::MAX,
            32 <= off <= s.len(),
            lang_number == u32_le_at(s, 28),
            idx <= lang_number,
            langs@.len() == idx,
            forall|i: int| 0 <= i < langs@.len() ==> path_wf((#[trigger] langs@[i])@),
            match spec_parse_lang_paths(s, off as int, (lang_number - idx) as nat) {
                Some((ps, end)) => spec_parse_lang_paths(s, 32, lang_number as nat)
                    == Some((langs@.map_values(|p: Path| p@) + ps, end)),
                None => spec_parse_lang_paths(s, 32, lang_number as nat) is None,
            },
        decreases lang_number - idx,
    {
        let ghost pviews = langs@.map_values(|p: Path| p@);
        match parse_path(bytes, off) {
            Ok((p, n)) => {
                proof {
                    if spec_parse_lang_paths(s, off as int + n as int - 2, (lang_number - idx - 1) as nat) is Some {
                        let (rest, end) = spec_parse_lang_paths(s, off as int + n as int - 2, (lang_number - idx - 1) as nat)->Some_0;
                        assert(pviews + (seq![p@] + rest) =~= (pviews + seq![p@]) + rest);
                    }
                }
                langs.push(p);
                proof {
                    assert(langs@.map_values(|q: Path| q@) =~= pviews + seq![p@]);
                }
                off = off + n - 2;
                idx = idx + 1;
            },
            Err(_) => {
                return Err(DecodeError::MalformedContainer);
            },
        }
    }
    proof {
        assert(langs@.map_values(|p: Path| p@) + Seq::<PathView>::empty() =~= langs@.map_values(|p: Path| p@));
    }

    let ghost e0 = off as int;
    let (zstd_dictionary, off) = match parse_lp(bytes, off) {
        Ok(v) => v,
        Err(e) => { return Err(e); },
    };
    if bytes.len() - off < 4 {
        return Err(DecodeError::MalformedContainer);
    }
    let section_number = read_u32_le(bytes, off);

    let mut sections: Vec<Section> = Vec::new();
    let mut cur: usize = off + 4;
    let mut idx2: u32 = 0;
    while idx2 < section_number
        invariant
            s == bytes@,
            s.len() <= usize::MAX,
            s.len() >= 32,
            cur <= s.len(),
            lang_number == u32_le_at(s, 28),
            spec_parse_lang_paths(s, 32, lang_number as nat) == Some((langs@.map_values(|p: Path| p@), e0)),
            spec_parse_lp(s, e0) == Some((zstd_dictionary@, off as int)),
            off as int + 4 <= s.len(),
            section_number == u32_le_at(s, off as int),
            off + 4 <= cur,
            idx2 <= section_number,
            sections@.len() == idx2,
            forall|i: int| 0 <= i < sections@.len() ==> section_wf((#[trigger] sections@[i])@),
            match spec_parse_sections(s, cur as int, (section_number - idx2) as nat) {
                Some((cs, end)) => spec_parse_sections(s, off as int + 4, section_number as nat)
                    == Some((sections@.map_values(|c: Section| c@) + cs, end)),
                None => spec_parse_sections(s, off as int + 4, section_number as nat) is None,
            },
        decreases section_number - idx2,
    {
        let ghost cviews = sections@.map_values(|c: Section| c@);
        match parse_section(bytes, cur) {
            Ok((c, end)) => {
                proof {
                    if spec_parse_sections(s, end as int, (section_number - idx2 - 1) as nat) is Some {
                        let (rest, e2) = spec_parse_sections(s, end as int, (section_number - idx2 - 1) as nat)->Some_0;
                        assert(cviews + (seq![c@] + rest) =~= (cviews + seq![c@]) + rest);
                    }
                }
                sections.push(c);
                proof {
                    assert(sections@.map_values(|d: Section| d@) =~= cviews + seq![c@]);
                }
                cur = end;
                idx2 = idx2 + 1;
            },
            Err(_) => {
                return Err(DecodeError::MalformedContainer);
            },
        }
    }
    proof {
        assert(sections@.map_values(|c: Section| c@) + Seq::<SectionView>::empty()
            =~= sections@.map_values(|c: Section| c@));
    }

    let zstd_dictionary_length = zstd_dictionary.len() as u32;
    Ok((
        Language {
            hash,
            unknown1,
            unknown2,
            unknown3,
            lang_number,
            langs,
            zstd_dictionary_length,
            zstd_dictionary,
            section_number,
            sections,
        },
        cur,
    ))
}


/// The serialized form of a localization header.
pub open spec fn loc_header_bytes(h: LocalizationHeaderView) -> Seq<u8> {
    spec_u32_to_le_bytes(h.unique_name_length)
        + h.unique_name
        + spec_u32_to_le_bytes(h.localization_position)
        + spec_u16_to_le_bytes(h.localization_length)
        + seq![h.unknown1, h.compression_type]
}

/// The serialized form of a run of localization headers.
pub open spec fn loc_headers_bytes(hs: Seq<LocalizationHeaderView>) -> Seq<u8>
    decreases hs.len(),
{
    if hs.len() == 0 {
        Seq::empty()
    } else {
        loc_header_bytes(hs[0]) + loc_headers_bytes(hs.subrange(1, hs.len() as int))
    }
}

/// The serialized form of a section.
pub open spec fn section_bytes(c: SectionView) -> Seq<u8> {
    lp_bytes(c.title)
        + lp_bytes(c.data)
        + spec_u32_to_le_bytes(c.localization_header_number)
        + loc_headers_bytes(c.localization_headers)
}

/// The serialized form of a run of sections.
pub open spec fn sections_bytes(cs: Seq<SectionView>) -> Seq<u8>
    decreases cs.len(),
{
    if cs.len() == 0 {
        Seq::empty()
    } else {
        section_bytes(cs[0]) + sections_bytes(cs.subrange(1, cs.len() as int))
    }
}

/// The serialized form of one language path entry: only the length field and
/// the name; the two metadata bytes overlap the following field and are not
/// re-emitted.
pub open spec fn lang_path_bytes(p: PathView) -> Seq<u8> {
    spec_u32_to_le_bytes(p.length) + p.name
}

/// The serialized form of a run of language path entries.
pub open spec fn lang_paths_bytes(ps: Seq<PathView>) -> Seq<u8>
    decreases ps.len(),
{
    if ps.len() == 0 {
        Seq::empty()
    } else {
        lang_path_bytes(ps[0]) + lang_paths_bytes(ps.subrange(1, ps.len() as int))
    }
}

/// The serialized form of a Language under the same layout rules the parser
/// uses.
pub open spec fn language_bytes(v: LanguageView) -> Seq<u8> {
    v.hash
        + spec_u32_to_le_bytes(v.unknown1)
        + spec_u32_to_le_bytes(v.unknown2)
        + spec_u32_to_le_bytes(v.unknown3)
        + spec_u32_to_le_bytes(v.lang_number)
        + lang_paths_bytes(v.langs)
        + spec_u32_to_le_bytes(v.zstd_dictionary_length)
        + v.zstd_dictionary
        + spec_u32_to_le_bytes(v.section_number)
        + sections_bytes(v.sections)
}

proof fn lemma_loc_header_round_trip(s: Seq<u8>, off: int)
    requires
        spec_parse_loc_header(s, off) is Some,
    ensures
        ({
            let (h, n) = spec_parse_loc_header(s, off)->Some_0;
            &&& off + n <= s.len()
            &&& n >= 12
            &&& s.subrange(off, off + n) == loc_header_bytes(h)
        }),
{
    lemma_auto_spec_u32_to_from_le_bytes();
    lemma_auto_spec_u16_to_from_le_bytes();
    let (h, n) = spec_parse_loc_header(s, off)->Some_0;
    let l = u32_le_at(s, off) as int;
    assert(spec_u32_to_le_bytes(h.unique_name_length) == s.subrange(off, off + 4));
    assert(spec_u32_to_le_bytes(h.localization_position) == s.subrange(off + 4 + l, off + 8 + l));
    assert(spec_u16_to_le_bytes(h.localization_length) == s.subrange(off + 8 + l, off + 10 + l));
    assert(s.subrange(off, off + n) =~= loc_header_bytes(h));
}

proof fn lemma_loc_headers_round_trip(s: Seq<u8>, off: int, k: nat)
    requires
        spec_parse_loc_headers(s, off, k) is Some,
        0 <= off <= s.len(),
    ensures
        ({
            let (hs, end) = spec_parse_loc_headers(s, off, k)->Some_0;
            &&& hs.len() == k
            &&& off <= end <= s.len()
            &&& s.subrange(off, end) == loc_headers_bytes(hs)
        }),
    decreases k,
{
    if k == 0 {
        assert(s.subrange(off, off) =~= loc_headers_bytes(Seq::empty()));
    } else {
        let (h, n) = spec_parse_loc_header(s, off)->Some_0;
        lemma_loc_header_round_trip(s, off);
        lemma_loc_headers_round_trip(s, off + n, (k - 1) as nat);
        let (rest, end) = spec_parse_loc_headers(s, off + n, (k - 1) as nat)->Some_0;
        let hs = seq![h] + rest;
        assert(hs.subrange(1, hs.len() as int) =~= rest);
        assert(s.subrange(off, end) =~= s.subrange(off, off + n) + s.subrange(off + n, end));
    }
}

/// Law: re-serializing a parsed section with the same layout rules
/// reproduces exactly the bytes it was parsed from, and the section's length
/// field equals that size.
pub proof fn lemma_section_round_trip(s: Seq<u8>, off: int)
    requires
        spec_parse_section(s, off) is Some,
        0 <= off,
    ensures
        ({
            let (c, end) = spec_parse_section(s, off)->Some_0;
            &&& off <= end <= s.len()
            &&& c._length == end - off
            &&& s.subrange(off, end) == section_bytes(c)
        }),
{
    lemma_auto_spec_u32_to_from_le_bytes();
    let (c, end) = spec_parse_section(s, off)->Some_0;
    let (title, e1) = spec_parse_lp(s, off)->Some_0;
    let (data, e2) = spec_parse_lp(s, e1)->Some_0;
    lemma_lp_round_trip(s, off);
    lemma_lp_round_trip(s, e1);
    let k = u32_le_at(s, e2) as nat;
    lemma_loc_headers_round_trip(s, e2 + 4, k);
    assert(spec_u32_to_le_bytes(c.localization_header_number) == s.subrange(e2, e2 + 4));
    assert(s.subrange(off, end) =~= s.subrange(off, e1) + s.subrange(e1, e2) + s.subrange(e2, e2 + 4)
        + s.subrange(e2 + 4, end));
    assert(s.subrange(off, end) =~= section_bytes(c));
}

proof fn lemma_sections_round_trip(s: Seq<u8>, off: int, k: nat)
    requires
        spec_parse_sections(s, off, k) is Some,
        0 <= off <= s.len(),
    ensures
        ({
            let (cs, end) = spec_parse_sections(s, off, k)->Some_0;
            &&& cs.len() == k
            &&& off <= end <= s.len()
            &&& s.subrange(off, end) == sections_bytes(cs)
        }),
    decreases k,
{
    if k == 0 {
        assert(s.subrange(off, off) =~= sections_bytes(Seq::empty()));
    } else {
        let (c, mid) = spec_parse_section(s, off)->Some_0;
        lemma_section_round_trip(s, off);
        lemma_sections_round_trip(s, mid, (k - 1) as nat);
        let (rest, end) = spec_parse_sections(s, mid, (k - 1) as nat)->Some_0;
        let cs = seq![c] + rest;
        assert(cs.subrange(1, cs.len() as int) =~= rest);
        assert(s.subrange(off, end) =~= s.subrange(off, mid) + s.subrange(mid, end));
    }
}

proof fn lemma_lang_paths_round_trip(s: Seq<u8>, off: int, k: nat)
    requires
        spec_parse_lang_paths(s, off, k) is Some,
        0 <= off <= s.len(),
    ensures
        ({
            let (ps, end) = spec_parse_lang_paths(s, off, k)->Some_0;
            &&& ps.len() == k
            &&& off <= end <= s.len()
            &&& s.subrange(off, end) == lang_paths_bytes(ps)
        }),
    decreases k,
{
    lemma_auto_spec_u32_to_from_le_bytes();
    if k == 0 {
        assert(s.subrange(off, off) =~= lang_paths_bytes(Seq::empty()));
    } else {
        let (p, n) = spec_parse_path(s, off)->Some_0;
        let l = u32_le_at(s, off) as int;
        assert(spec_u32_to_le_bytes(p.length) == s.subrange(off, off + 4));
        assert(s.subrange(off, off + n - 2) =~= lang_path_bytes(p));
        lemma_lang_paths_round_trip(s, off + n - 2, (k - 1) as nat);
        let (rest, end) = spec_parse_lang_paths(s, off + n - 2, (k - 1) as nat)->Some_0;
        let ps = seq![p] + rest;
        assert(ps.subrange(1, ps.len() as int) =~= rest);
        assert(s.subrange(off, end) =~= s.subrange(off, off + n - 2) + s.subrange(off + n - 2, end));
    }
}

/// Law: re-serializing the parsed fields of a Language with the same layout
/// rules reproduces exactly the bytes the record was parsed from.
pub proof fn lemma_language_round_trip(s: Seq<u8>)
    requires
        spec_parse_language(s) is Some,
    ensures
        ({
            let (v, n) = spec_parse_language(s)->Some_0;
            s.subrange(0, n) == language_bytes(v)
        }),
{
    lemma_auto_spec_u32_to_from_le_bytes();
    let (v, n) = spec_parse_language(s)->Some_0;
    let k = u32_le_at(s, 28) as nat;
    let (langs, e0) = spec_parse_lang_paths(s, 32, k)->Some_0;
    lemma_lang_paths_round_trip(s, 32, k);
    let (dict, e1) = spec_parse_lp(s, e0)->Some_0;
    lemma_lp_round_trip(s, e0);
    let k2 = u32_le_at(s, e1) as nat;
    lemma_sections_round_trip(s, e1 + 4, k2);
    assert(spec_u32_to_le_bytes(v.lang_number) == s.subrange(28, 32));
    assert(spec_u32_to_le_bytes(v.zstd_dictionary_length) == s.subrange(e0, e0 + 4));
    assert(spec_u32_to_le_bytes(v.section_number) == s.subrange(e1, e1 + 4));
    assert(s.subrange(0, n) =~= language_bytes(v));
}

} // verus!
