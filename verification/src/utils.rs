use vstd::prelude::*;

verus! {

use crate::structs::{EfiGuidDefinedSection, PspError, EFI_GUID_SECTION_SIZE};

broadcast use crate::lemma_slice_len_bound;

/// Raw location fields in PSP directory structures carry an address in their
/// low 24 bits; the high bits are flash-mapping noise and must be masked away
/// before the caller-supplied base offset is added.
pub open spec fn spec_resolve(location: usize, offset: usize) -> int {
    (location & 0x00FFFFFF) + offset
}

/// The absolute buffer offset a raw location resolves to.
pub fn resolve_location(location: usize, offset: usize) -> (r: usize)
    requires
        (location & 0x00FFFFFF) + offset <= usize::MAX,
    ensures
        r == (location & 0x00FFFFFF) + offset,
        r == spec_resolve(location, offset),
{
    proof {
        assert(location & 0x00FFFFFF <= 0x00FFFFFF) by (bit_vector);
    }
    (location & 0x00FFFFFF) + offset
}

/// What the external pattern scanner finds: for each occurrence of the
/// regular-expression `pattern` in `data`, in scan order, the absolute offset
/// of the occurrence's first participating capture group and the bytes that
/// group matched.
pub uninterp spec fn scan_of(pattern: Seq<char>, data: Seq<u8>) -> Seq<(usize, Seq<u8>)>;

/// The view of the scanner's executable result.
pub open spec fn matches_view(r: Seq<(usize, Vec<u8>)>) -> Seq<(usize, Seq<u8>)> {
    r.map_values(|p: (usize, Vec<u8>)| (p.0, p.1@))
}

/// Relies on regex::bytes::Regex (captures_iter): each occurrence of the
/// pattern yields its first participating capture group, and a group's byte
/// range lies inside the haystack. The list is a function of the pattern and
/// the bytes alone; a pattern that does not compile yields nothing.
#[verifier::external_body]
pub fn find_pattern(data: &[u8], pattern: &str) -> (r: Vec<(usize, Vec<u8>)>)
    ensures
        matches_view(r@) == scan_of(pattern@, data@),
        forall|i: int|
            0 <= i < r@.len() ==> (#[trigger] r@[i]).0 + r@[i].1@.len() <= data@.len(),
{
    let regex_string = &["(?s-u)", pattern].concat();
    let regex = match regex::bytes::Regex::new(regex_string) {
        Ok(regex) => regex,
        Err(_) => return Vec::new(),
    };
    regex
        .captures_iter(data)
        .filter_map(|capture| (1..capture.len()).find_map(|x| capture.get(x)))
        .map(|match_| (match_.start(), match_.as_bytes().to_vec()))
        .collect()
}

/// What the LZMA decoder yields for a byte stream: the decompressed bytes,
/// or nothing when the stream does not decode; a function of the bytes alone.
pub uninterp spec fn lzma_of(enc: Seq<u8>) -> Option<Seq<u8>>;

/// Relies on lzma_rs::lzma_decompress: reads one LZMA stream from the given
/// bytes and writes out the decompressed bytes; deterministic in its input.
#[verifier::external_body]
fn lzma_decompress_bytes(enc: &[u8]) -> (r: Option<Vec<u8>>)
    ensures
        match r {
            Some(dec) => lzma_of(enc@) == Some(dec@),
            None => lzma_of(enc@) == None::<Seq<u8>>,
        },
{
    let mut input: &[u8] = enc;
    let mut output: Vec<u8> = Vec::new();
    match lzma_rs::lzma_decompress(&mut input, &mut output) {
        Ok(()) => Some(output),
        Err(_) => None,
    }
}

/// Relies on String::push: appends exactly the one character.
#[verifier::external_body]
fn push_char(s: &mut String, c: char)
    ensures
        final(s)@ == old(s)@ + seq![c],
{
    s.push(c);
}

/// How matched identifier bytes render as text: NUL bytes become spaces,
/// every other byte is its own character.
pub open spec fn spec_render(bytes: Seq<u8>) -> Seq<char> {
    bytes.map_values(|b: u8| if b == 0 { ' ' } else { b as char })
}

fn render_string(bytes: &[u8]) -> (s: String)
    ensures
        s@ == spec_render(bytes@),
{
    let mut s = String::new();
    let mut i: usize = 0;
    proof {
        assert(s@ =~= spec_render(bytes@.subrange(0, 0)));
    }
    while i < bytes.len()
        invariant
            0 <= i <= bytes@.len(),
            s@ == spec_render(bytes@.subrange(0, i as int)),
        decreases bytes@.len() - i,
    {
        let b = bytes[i];
        let c: char = if b == 0 {
            ' '
        } else {
            b as char
        };
        push_char(&mut s, c);
        proof {
            assert(bytes@.subrange(0, i + 1) =~= bytes@.subrange(0, i as int).push(b));
            assert(spec_render(bytes@.subrange(0, i + 1)) =~= spec_render(
                bytes@.subrange(0, i as int),
            ).push(c));
        }
        i += 1;
    }
    proof {
        assert(bytes@.subrange(0, bytes@.len() as int) =~= bytes@);
    }
    s
}

/// The plaintext build-identifier strings of the image: every scanner match
/// of the AGESA pattern, rendered with NUL bytes as spaces.
pub open spec fn spec_agesa_plain(data: Seq<u8>) -> Seq<Seq<char>> {
    scan_of("(AGESA![0-9a-zA-Z]{0,10}\\x00{0,1}[0-9a-zA-Z .\\-]+)"@, data).map_values(
        |m: (usize, Seq<u8>)| spec_render(m.1),
    )
}

/// What one matched compressed-volume section yields. The captured bytes are
/// the section header; its three size bytes give the total section size, the
/// body follows the header in the image and must lie inside the buffer; the
/// body decompresses and the decompressed bytes are scanned for the AGESA
/// pattern, whose first match renders as the volume's identifier.
pub open spec fn spec_volume_outcome(data: Seq<u8>, m: (usize, Seq<u8>)) -> Result<
    Seq<char>,
    PspError,
> {
    if m.1.len() < EFI_GUID_SECTION_SIZE {
        Err(PspError::TruncatedData)
    } else {
        let h = EfiGuidDefinedSection::spec_decode(m.1, 0);
        if h.spec_full_size() < EFI_GUID_SECTION_SIZE {
            Err(PspError::BodyOutOfBounds)
        } else {
            let body_start = m.0 + EFI_GUID_SECTION_SIZE;
            let body_len = h.spec_full_size() - EFI_GUID_SECTION_SIZE;
            if body_start + body_len > data.len() {
                Err(PspError::BodyOutOfBounds)
            } else {
                match lzma_of(data.subrange(body_start, body_start + body_len)) {
                    None => Err(PspError::DecompressionFailure),
                    Some(dec) => {
                        let ms = scan_of(
                            "(AGESA![0-9a-zA-Z]{0,10}\\x00{0,1}[0-9a-zA-Z .\\-]+)"@,
                            dec,
                        );
                        if ms.len() == 0 {
                            Err(PspError::NoIdentifierFound)
                        } else {
                            Ok(spec_render(ms[0].1))
                        }
                    },
                }
            }
        }
    }
}

/// The identifier strings of the sections from `i` on, in order.
pub open spec fn spec_volume_strings(data: Seq<u8>, ms: Seq<(usize, Seq<u8>)>, i: int) -> Seq<
    Seq<char>,
>
    decreases ms.len() - i,
{
    if i < 0 || i >= ms.len() {
        Seq::empty()
    } else {
        let head = match spec_volume_outcome(data, ms[i]) {
            Ok(s) => seq![s],
            Err(e) => Seq::empty(),
        };
        head + spec_volume_strings(data, ms, i + 1)
    }
}

/// The failures of the sections from `i` on, each with the section's offset.
pub open spec fn spec_volume_failures(data: Seq<u8>, ms: Seq<(usize, Seq<u8>)>, i: int) -> Seq<
    (usize, PspError),
>
    decreases ms.len() - i,
{
    if i < 0 || i >= ms.len() {
        Seq::empty()
    } else {
        let head = match spec_volume_outcome(data, ms[i]) {
            Ok(s) => Seq::empty(),
            Err(e) => seq![(ms[i].0, e)],
        };
        head + spec_volume_failures(data, ms, i + 1)
    }
}

/// The outcome of the AGESA scan: the identifier strings found, and the
/// per-section failures of the compressed-volume path, each with the
/// absolute offset of the section it struck at.
#[derive(Debug)]
pub struct AgesaReport {
    pub strings: Vec<String>,
    pub failures: Vec<(usize, PspError)>,
}

/// Extracts the human-readable build identifiers. Plaintext matches anywhere
/// in the image win outright; otherwise every compressed volume section is
/// tried, each failing only for itself; only an image with neither a
/// plaintext match nor any volume section yields the top-level error.
#[verifier::loop_isolation(false)]
pub fn try_find_agesa(data: &[u8]) -> (r: Result<AgesaReport, PspError>)
    ensures
        spec_agesa_plain(data@).len() > 0 ==> (r matches Ok(rep) && rep.strings.deep_view()
            == spec_agesa_plain(data@) && rep.failures@ == Seq::<(usize, PspError)>::empty()),
        spec_agesa_plain(data@).len() == 0 && scan_of(
            "\\x93\\xFD\\x21\\x9E\\x72\\x9C\\x15\\x4C\\x8C\\x4B\\xE7\\x7F\\x1D\\xB2\\xD7\\x92.{8}(.{4}\\x98\\x58\\x4E\\xEE\\x14\\x39\\x59\\x42\\x9D\\x6E\\xDC\\x7B\\xD7\\x94\\x03\\xCF.{4})"@,
            data@,
        ).len() == 0 ==> r == Err::<AgesaReport, PspError>(PspError::NoIdentifierFound),
        spec_agesa_plain(data@).len() == 0 && scan_of(
            "\\x93\\xFD\\x21\\x9E\\x72\\x9C\\x15\\x4C\\x8C\\x4B\\xE7\\x7F\\x1D\\xB2\\xD7\\x92.{8}(.{4}\\x98\\x58\\x4E\\xEE\\x14\\x39\\x59\\x42\\x9D\\x6E\\xDC\\x7B\\xD7\\x94\\x03\\xCF.{4})"@,
            data@,
        ).len() > 0 ==> (r matches Ok(rep) && {
            let ms = scan_of(
                "\\x93\\xFD\\x21\\x9E\\x72\\x9C\\x15\\x4C\\x8C\\x4B\\xE7\\x7F\\x1D\\xB2\\xD7\\x92.{8}(.{4}\\x98\\x58\\x4E\\xEE\\x14\\x39\\x59\\x42\\x9D\\x6E\\xDC\\x7B\\xD7\\x94\\x03\\xCF.{4})"@,
                data@,
            );
            &&& rep.strings.deep_view() == spec_volume_strings(data@, ms, 0)
            &&& rep.failures@ == spec_volume_failures(data@, ms, 0)
        }),
{
    let plain = find_pattern(data, "(AGESA![0-9a-zA-Z]{0,10}\\x00{0,1}[0-9a-zA-Z .\\-]+)");
    let ghost plain_spec = spec_agesa_plain(data@);
    if plain.len() > 0 {
        let mut strings: Vec<String> = Vec::new();
        let mut i: usize = 0;
        proof {
            assert(strings.deep_view() =~= plain_spec.subrange(0, 0));
        }
        while i < plain.len()
            invariant
                0 <= i <= plain@.len(),
                strings.deep_view() == plain_spec.subrange(0, i as int),
            decreases plain@.len() - i,
        {
            let s = render_string(plain[i].1.as_slice());
            strings.push(s);
            proof {
                assert(matches_view(plain@)[i as int] == (plain@[i as int].0, plain@[i as int].1@));
                assert(strings.deep_view() =~= plain_spec.subrange(0, i + 1));
            }
            i += 1;
        }
        proof {
            assert(plain_spec.subrange(0, plain_spec.len() as int) =~= plain_spec);
        }
        return Ok(AgesaReport { strings, failures: Vec::new() });
    }
    let sections = find_pattern(
        data,
        "\\x93\\xFD\\x21\\x9E\\x72\\x9C\\x15\\x4C\\x8C\\x4B\\xE7\\x7F\\x1D\\xB2\\xD7\\x92.{8}(.{4}\\x98\\x58\\x4E\\xEE\\x14\\x39\\x59\\x42\\x9D\\x6E\\xDC\\x7B\\xD7\\x94\\x03\\xCF.{4})",
    );
    if sections.len() == 0 {
        return Err(PspError::NoIdentifierFound);
    }
    let ghost ms = matches_view(sections@);
    let mut strings: Vec<String> = Vec::new();
    let mut failures: Vec<(usize, PspError)> = Vec::new();
    let mut i: usize = 0;
    proof {
        assert(Seq::<Seq<char>>::empty() + spec_volume_strings(data@, ms, 0)
            =~= spec_volume_strings(data@, ms, 0));
        assert(Seq::<(usize, PspError)>::empty() + spec_volume_failures(data@, ms, 0)
            =~= spec_volume_failures(data@, ms, 0));
    }
    while i < sections.len()
        invariant
            0 <= i <= sections@.len(),
            strings.deep_view() + spec_volume_strings(data@, ms, i as int)
                == spec_volume_strings(data@, ms, 0),
            failures@ + spec_volume_failures(data@, ms, i as int) == spec_volume_failures(
                data@,
                ms,
                0,
            ),
        decreases sections@.len() - i,
    {
        let ghost strings_prev = strings.deep_view();
        let ghost failures_prev = failures@;
        let addr = sections[i].0;
        let bytes_len = sections[i].1.len();
        proof {
            assert(ms[i as int] == (sections@[i as int].0, sections@[i as int].1@));
        }
        if bytes_len < EFI_GUID_SECTION_SIZE {
            failures.push((addr, PspError::TruncatedData));
        } else {
            let h = match EfiGuidDefinedSection::new(sections[i].1.as_slice()) {
                Ok(h) => h,
                Err(e) => {
                    proof {
                        assert(false);
                    }
                    return Err(e);
                },
            };
            let full = h.get_full_size();
            if full < EFI_GUID_SECTION_SIZE {
                failures.push((addr, PspError::BodyOutOfBounds));
            } else {
                let body_start = addr + EFI_GUID_SECTION_SIZE;
                let body_len = full - EFI_GUID_SECTION_SIZE;
                if body_start > data.len() || body_len > data.len() - body_start {
                    failures.push((addr, PspError::BodyOutOfBounds));
                } else {
                    match lzma_decompress_bytes(&data[body_start..body_start + body_len]) {
                        None => {
                            failures.push((addr, PspError::DecompressionFailure));
                        },
                        Some(dec) => {
                            let inner = find_pattern(
                                dec.as_slice(),
                                "(AGESA![0-9a-zA-Z]{0,10}\\x00{0,1}[0-9a-zA-Z .\\-]+)",
                            );
                            if inner.len() == 0 {
                                failures.push((addr, PspError::NoIdentifierFound));
                            } else {
                                proof {
                                    assert(matches_view(inner@)[0] == (
                                        inner@[0].0,
                                        inner@[0].1@,
                                    ));
                                }
                                let s = render_string(inner[0].1.as_slice());
                                strings.push(s);
                            }
                        },
                    }
                }
            }
        }
        proof {
            let outcome = spec_volume_outcome(data@, ms[i as int]);
            let shead = match outcome {
                Ok(s) => seq![s],
                Err(e) => Seq::<Seq<char>>::empty(),
            };
            let fhead = match outcome {
                Ok(s) => Seq::<(usize, PspError)>::empty(),
                Err(e) => seq![(ms[i as int].0, e)],
            };
            assert(strings.deep_view() =~= strings_prev + shead);
            assert(failures@ =~= failures_prev + fhead);
            assert(spec_volume_strings(data@, ms, i as int) == shead + spec_volume_strings(
                data@,
                ms,
                i + 1,
            ));
            assert(spec_volume_failures(data@, ms, i as int) == fhead + spec_volume_failures(
                data@,
                ms,
                i + 1,
            ));
            assert((strings_prev + shead) + spec_volume_strings(data@, ms, i + 1) =~= strings_prev
                + (shead + spec_volume_strings(data@, ms, i + 1)));
            assert((failures_prev + fhead) + spec_volume_failures(data@, ms, i + 1)
                =~= failures_prev + (fhead + spec_volume_failures(data@, ms, i + 1)));
        }
        i += 1;
    }
    proof {
        assert(spec_volume_strings(data@, ms, sections@.len() as int) =~= Seq::<Seq<char>>::empty());
        assert(spec_volume_failures(data@, ms, sections@.len() as int) =~= Seq::<
            (usize, PspError),
        >::empty());
        assert(strings.deep_view() + Seq::<Seq<char>>::empty() =~= strings.deep_view());
        assert(failures@ + Seq::<(usize, PspError)>::empty() =~= failures@);
    }
    Ok(AgesaReport { strings, failures })
}

} // verus!
