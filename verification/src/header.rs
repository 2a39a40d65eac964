use vstd::prelude::*;
use crate::checksum::crc32_of;
use crate::errors::ScryError;
use crate::reader::ReaderView;
use crate::reader::ScryByteReader;
use crate::reader::lemma_advance_twice;

verus! {

/// What the compressor said of its effort.
#[derive(PartialEq, Eq, Debug, Clone, Copy, Structural)]
pub enum ExtraFlag {
    SlowestAlgorithm,
    FastestAlgorithm,
    Unknown,
}

/// The file system on which the member was made.
#[derive(PartialEq, Eq, Debug, Clone, Copy, Structural)]
pub enum OperatingSystem {
    Fat,
    Unix,
    Macintosh,
    NTFS,
    Unknown,
}

/// The header of one GZIP member.
#[derive(PartialEq, Eq, Debug)]
pub struct GzipHeader {
    pub text: bool,
    pub name: Option<String>,
    pub comment: Option<String>,
    pub mtime: u32,
    pub extra: ExtraFlag,
    pub os: OperatingSystem,
}

/// A header, to the contracts: the strings as their text.
pub struct HeaderView {
    pub text: bool,
    pub name: Option<Seq<char>>,
    pub comment: Option<Seq<char>>,
    pub mtime: u32,
    pub extra: ExtraFlag,
    pub os: OperatingSystem,
}

impl View for GzipHeader {
    type V = HeaderView;

    open spec fn view(&self) -> HeaderView {
        HeaderView {
            text: self.text,
            name: match self.name {
                Some(s) => Some(s@),
                None => None,
            },
            comment: match self.comment {
                Some(s) => Some(s@),
                None => None,
            },
            mtime: self.mtime,
            extra: self.extra,
            os: self.os,
        }
    }
}

/// Whether bit `k` of the flags byte is set.
pub open spec fn flag_set(flg: u8, k: u8) -> bool {
    (flg >> k) & 1 == 1
}

pub open spec fn extra_flag_of(xfl: u8) -> ExtraFlag {
    if xfl == 2 {
        ExtraFlag::SlowestAlgorithm
    } else if xfl == 4 {
        ExtraFlag::FastestAlgorithm
    } else {
        ExtraFlag::Unknown
    }
}

pub open spec fn operating_system_of(os: u8) -> OperatingSystem {
    if os == 0 {
        OperatingSystem::Fat
    } else if os == 3 {
        OperatingSystem::Unix
    } else if os == 7 {
        OperatingSystem::Macintosh
    } else if os == 11 {
        OperatingSystem::NTFS
    } else {
        OperatingSystem::Unknown
    }
}

/// The low sixteen bits of a CRC-32: what the header stores of it.
pub open spec fn crc16_of(crc: u32) -> u16 {
    (crc & 0xffff) as u16
}

/// The ten bytes every header starts with, as far as they are used.
#[derive(Clone, Copy)]
pub struct FixedPart {
    pub flg: u8,
    pub mtime: u32,
    pub xfl: u8,
    pub os: u8,
}

/// The two magic bytes. Input that ends before the first is the clean end
/// of the stream.
pub open spec fn parse_magic(r: ReaderView) -> Result<((), ReaderView), ScryError> {
    match r.take_u8() {
        Err(_) => Err(ScryError::ExpectedEOF),
        Ok((id1, r1)) => match r1.take_u8() {
            Err(e) => Err(e),
            Ok((id2, r2)) => if id1 != 0x1f || id2 != 0x8b {
                Err(ScryError::NotGZIPHeader)
            } else {
                Ok(((), r2))
            },
        },
    }
}

/// The method byte, which must be 8, and the flags byte.
pub open spec fn parse_method(r: ReaderView) -> Result<(u8, ReaderView), ScryError> {
    match r.take_u8() {
        Err(e) => Err(e),
        Ok((cm, r1)) => if cm != 8 {
            Err(ScryError::InvalidCompressionMethod)
        } else {
            r1.take_u8()
        },
    }
}

/// Modification time, extra flags and operating system.
pub open spec fn parse_fixed(r: ReaderView, flg: u8) -> Result<(FixedPart, ReaderView), ScryError> {
    match r.take_u32_le() {
        Err(e) => Err(e),
        Ok((mtime, r1)) => match r1.take_u8() {
            Err(e) => Err(e),
            Ok((xfl, r2)) => match r2.take_u8() {
                Err(e) => Err(e),
                Ok((os, r3)) => Ok((FixedPart { flg, mtime, xfl, os }, r3)),
            },
        },
    }
}

/// The extra field, where the flags announce one: a length and as many
/// bytes, which are passed over.
pub open spec fn skip_extra(r: ReaderView, flg: u8) -> Result<((), ReaderView), ScryError> {
    if flag_set(flg, 2) {
        match r.take_u16_le() {
            Err(e) => Err(e),
            Ok((xlen, r1)) => match r1.take_bytes(xlen as nat) {
                Err(e) => Err(e),
                Ok((_, r2)) => Ok(((), r2)),
            },
        }
    } else {
        Ok(((), r))
    }
}

/// A NUL-terminated string, where bit `k` of the flags announces one.
pub open spec fn parse_text(r: ReaderView, flg: u8, k: u8) -> Result<
    (Option<Seq<char>>, ReaderView),
    ScryError,
> {
    if flag_set(flg, k) {
        match r.take_cstring() {
            Err(e) => Err(e),
            Ok((s, r1)) => Ok((Some(s), r1)),
        }
    } else {
        Ok((None, r))
    }
}

/// The end of the header: the checksum scope is closed, and where the flags
/// announce a header CRC, the two bytes that follow must be the low sixteen
/// bits of the CRC-32 of all header bytes before them.
pub open spec fn check_crc(r: ReaderView, flg: u8) -> Result<((), ReaderView), ScryError> {
    let closed = ReaderView { scope: None, ..r };
    if flag_set(flg, 1) {
        match closed.take_u16_le() {
            Err(e) => Err(e),
            Ok((found, r1)) => {
                let expected = crc16_of(
                    crc32_of(
                        match r.scope {
                            Some(s) => s,
                            None => Seq::empty(),
                        },
                    ),
                );
                if found != expected {
                    Err(ScryError::InvalidHeaderCRC { expected, found })
                } else {
                    Ok(((), r1))
                }
            },
        }
    } else {
        Ok(((), closed))
    }
}

/// The variable part of a header: extra field, name, comment, header CRC.
pub open spec fn parse_optional(r: ReaderView, fixed: FixedPart) -> Result<
    (HeaderView, ReaderView),
    ScryError,
> {
    match skip_extra(r, fixed.flg) {
        Err(e) => Err(e),
        Ok((_, r1)) => match parse_text(r1, fixed.flg, 3) {
            Err(e) => Err(e),
            Ok((name, r2)) => match parse_text(r2, fixed.flg, 4) {
                Err(e) => Err(e),
                Ok((comment, r3)) => match check_crc(r3, fixed.flg) {
                    Err(e) => Err(e),
                    Ok((_, r4)) => Ok(
                        (
                            HeaderView {
                                text: flag_set(fixed.flg, 0),
                                name,
                                comment,
                                mtime: fixed.mtime,
                                extra: extra_flag_of(fixed.xfl),
                                os: operating_system_of(fixed.os),
                            },
                            r4,
                        ),
                    ),
                },
            },
        },
    }
}

/// Reading one member header from `r`: the header and the view after it,
/// or the first error met.
pub open spec fn parse_header(r: ReaderView) -> Result<(HeaderView, ReaderView), ScryError> {
    match parse_magic(ReaderView { scope: Some(Seq::empty()), ..r }) {
        Err(e) => Err(e),
        Ok((_, r1)) => match parse_method(r1) {
            Err(e) => Err(e),
            Ok((flg, r2)) => match parse_fixed(r2, flg) {
                Err(e) => Err(e),
                Ok((fixed, r3)) => parse_optional(r3, fixed),
            },
        },
    }
}

/// Passes over `n` bytes.
fn skip_bytes(sr: &mut ScryByteReader, n: u16) -> (res: Result<(), ScryError>)
    requires
        old(sr)@.wf(),
    ensures
        final(sr)@.follows(old(sr)@),
        match old(sr)@.take_bytes(n as nat) {
            Ok((_, after)) => res is Ok && final(sr)@ == after,
            Err(e) => res == Err::<(), ScryError>(e),
        },
{
    let ghost start = sr@;
    let mut i: u16 = 0;
    proof {
        assert(start.advance(0) == start) by {
            assert(start.data.subrange(start.byte as int, start.byte as int) =~= Seq::<
                u8,
            >::empty());
            match start.scope {
                Some(s) => {
                    assert(s + Seq::<u8>::empty() =~= s);
                },
                None => {},
            }
        }
    }
    while i < n
        invariant
            i <= n,
            start == old(sr)@,
            start.wf(),
            sr@.wf(),
            start.byte + i <= start.data.len(),
            sr@ == start.advance(i as nat),
        decreases n - i,
    {
        match sr.read_u8() {
            Err(e) => {
                return Err(e);
            },
            Ok(_) => {
                proof {
                    lemma_advance_twice(start, i as nat, 1);
                }
            },
        }
        i = i + 1;
    }
    Ok(())
}

/// The ensures shared by the stages of the header: the stage did to the
/// reader what its model says, and gave nothing back.
pub open spec fn stage_done<T>(
    ok: Option<T>,
    err: Option<ScryError>,
    before: ReaderView,
    after: ReaderView,
    model: Result<(T, ReaderView), ScryError>,
) -> bool {
    &&& after.follows(before)
    &&& match model {
        Ok((v, r)) => ok == Some(v) && err is None && after == r,
        Err(e) => ok is None && err == Some(e),
    }
}

fn read_magic(sr: &mut ScryByteReader) -> (res: Result<(), ScryError>)
    requires
        old(sr)@.wf(),
    ensures
        stage_done(res.ok(), res.err(), old(sr)@, final(sr)@, parse_magic(old(sr)@)),
        res is Ok ==> final(sr)@.bits_left() < old(sr)@.bits_left(),
        res == Err::<(), ScryError>(ScryError::ExpectedEOF) ==> final(sr)@ == old(sr)@,
{
    let id1 = match sr.read_u8() {
        Ok(byte) => byte,
        Err(_) => {
            return Err(ScryError::ExpectedEOF);
        },
    };
    let id2 = sr.read_u8()?;
    if id1 != 0x1f || id2 != 0x8b {
        return Err(ScryError::NotGZIPHeader);
    }
    Ok(())
}

fn read_method(sr: &mut ScryByteReader) -> (res: Result<u8, ScryError>)
    requires
        old(sr)@.wf(),
    ensures
        stage_done(res.ok(), res.err(), old(sr)@, final(sr)@, parse_method(old(sr)@)),
        res != Err::<u8, ScryError>(ScryError::ExpectedEOF),
{
    let cm = sr.read_u8()?;
    if cm != 8 {
        return Err(ScryError::InvalidCompressionMethod);
    }
    sr.read_u8()
}

fn read_fixed(sr: &mut ScryByteReader, flg: u8) -> (res: Result<FixedPart, ScryError>)
    requires
        old(sr)@.wf(),
    ensures
        stage_done(res.ok(), res.err(), old(sr)@, final(sr)@, parse_fixed(old(sr)@, flg)),
        res != Err::<FixedPart, ScryError>(ScryError::ExpectedEOF),
{
    let mtime = sr.read_u32_le()?;
    let xfl = sr.read_u8()?;
    let os = sr.read_u8()?;
    Ok(FixedPart { flg, mtime, xfl, os })
}

fn read_extra(sr: &mut ScryByteReader, flg: u8) -> (res: Result<(), ScryError>)
    requires
        old(sr)@.wf(),
    ensures
        stage_done(res.ok(), res.err(), old(sr)@, final(sr)@, skip_extra(old(sr)@, flg)),
        res != Err::<(), ScryError>(ScryError::ExpectedEOF),
{
    if (flg >> 2u8) & 1 == 1 {
        let xlen = sr.read_u16_le()?;
        skip_bytes(sr, xlen)?;
    }
    Ok(())
}

fn read_text(sr: &mut ScryByteReader, flg: u8, k: u8) -> (res: Result<Option<String>, ScryError>)
    requires
        old(sr)@.wf(),
        k < 8,
    ensures
        final(sr)@.follows(old(sr)@),
        res != Err::<Option<String>, ScryError>(ScryError::ExpectedEOF),
        match parse_text(old(sr)@, flg, k) {
            Ok((text, after)) => final(sr)@ == after && (match res {
                Ok(Some(s)) => text == Some(s@),
                Ok(None) => text is None,
                Err(_) => false,
            }),
            Err(e) => res == Err::<Option<String>, ScryError>(e),
        },
{
    if (flg >> k) & 1 == 1 {
        Ok(Some(sr.read_null_terminated_string()?))
    } else {
        Ok(None)
    }
}

fn read_crc(sr: &mut ScryByteReader, flg: u8) -> (res: Result<(), ScryError>)
    requires
        old(sr)@.wf(),
        old(sr)@.scope is Some,
    ensures
        stage_done(res.ok(), res.err(), old(sr)@, final(sr)@, check_crc(old(sr)@, flg)),
        res != Err::<(), ScryError>(ScryError::ExpectedEOF),
{
    let hcrc_actual = match sr.end_crc() {
        Some(sum) => sum,
        None => 0,
    };
    if (flg >> 1u8) & 1 == 1 {
        assert(hcrc_actual & 0xffff < 0x10000) by (bit_vector);
        let truncated = (hcrc_actual & 0xffff) as u16;
        let hcrc = sr.read_u16_le()?;
        if hcrc != truncated {
            return Err(ScryError::InvalidHeaderCRC { expected: truncated, found: hcrc });
        }
    }
    Ok(())
}

fn read_optional(sr: &mut ScryByteReader, fixed: FixedPart) -> (res: Result<GzipHeader, ScryError>)
    requires
        old(sr)@.wf(),
        old(sr)@.scope is Some,
    ensures
        final(sr)@.follows(old(sr)@),
        res != Err::<GzipHeader, ScryError>(ScryError::ExpectedEOF),
        match parse_optional(old(sr)@, fixed) {
            Ok((header, after)) => res is Ok && res->Ok_0@ == header && final(sr)@ == after,
            Err(e) => res == Err::<GzipHeader, ScryError>(e),
        },
{
    read_extra(sr, fixed.flg)?;
    let name = read_text(sr, fixed.flg, 3)?;
    let comment = read_text(sr, fixed.flg, 4)?;
    read_crc(sr, fixed.flg)?;
    let xfl = fixed.xfl;
    let extra = if xfl == 2 {
        ExtraFlag::SlowestAlgorithm
    } else if xfl == 4 {
        ExtraFlag::FastestAlgorithm
    } else {
        ExtraFlag::Unknown
    };
    let os_byte = fixed.os;
    let os = if os_byte == 0 {
        OperatingSystem::Fat
    } else if os_byte == 3 {
        OperatingSystem::Unix
    } else if os_byte == 7 {
        OperatingSystem::Macintosh
    } else if os_byte == 11 {
        OperatingSystem::NTFS
    } else {
        OperatingSystem::Unknown
    };
    Ok(
        GzipHeader {
            text: (fixed.flg >> 0u8) & 1 == 1,
            name,
            comment,
            mtime: fixed.mtime,
            extra,
            os,
        },
    )
}

/// Reads one member header.
pub fn read_header(sr: &mut ScryByteReader) -> (res: Result<GzipHeader, ScryError>)
    requires
        old(sr)@.wf(),
    ensures
        final(sr)@.follows(old(sr)@),
        res is Ok ==> final(sr)@.bits_left() < old(sr)@.bits_left(),
        match parse_header(old(sr)@) {
            Ok((header, after)) => res is Ok && res->Ok_0@ == header && final(sr)@ == after,
            Err(e) => res == Err::<GzipHeader, ScryError>(e),
        },
        res == Err::<GzipHeader, ScryError>(ScryError::ExpectedEOF) ==> final(sr)@ == (ReaderView {
            scope: Some(Seq::empty()),
            ..old(sr)@
        }),
{
    sr.begin_crc();
    read_magic(sr)?;
    let flg = read_method(sr)?;
    let fixed = read_fixed(sr, flg)?;
    read_optional(sr, fixed)
}

} // verus!
