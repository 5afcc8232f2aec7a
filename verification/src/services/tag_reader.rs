//! Stream facts read from an audio file's bytes, and their display texts.

use vstd::prelude::*;
use vstd::utf8::{decode_utf8, valid_utf8};

use crate::models::audio_file::AudioMetadata;
use crate::paths::{extension, path_extension};
use crate::text::{
    decimal, digit_char, push_char, push_char_all, push_decimal, string_of, trim, trimmed,
};

verus! {

/// Whether `bytes` holds the FLAC stream marker `fLaC` at `at`.
pub open spec fn flac_marker_at(bytes: Seq<u8>, at: int) -> bool {
    &&& 0 <= at
    &&& at + 4 <= bytes.len()
    &&& bytes[at] == 0x66u8
    &&& bytes[at + 1] == 0x4cu8
    &&& bytes[at + 2] == 0x61u8
    &&& bytes[at + 3] == 0x43u8
}

/// The size in an ID3v2 header: four bytes of seven bits each, most significant
/// first.
pub open spec fn syncsafe_size(bytes: Seq<u8>) -> int {
    bytes[6] * 2097152 + bytes[7] * 16384 + bytes[8] * 128 + bytes[9]
}

/// Where the FLAC stream begins: at the start, or right after an ID3v2 tag (its
/// ten-byte header, its size, and a ten-byte footer when the header's flags
/// announce one).
pub open spec fn flac_marker(bytes: Seq<u8>) -> Option<int> {
    if flac_marker_at(bytes, 0) {
        Some(0)
    } else if bytes.len() < 10 || bytes[0] != 0x49u8 || bytes[1] != 0x44u8 || bytes[2] != 0x33u8 {
        None
    } else if bytes[6] > 0x7f || bytes[7] > 0x7f || bytes[8] > 0x7f || bytes[9] > 0x7f {
        None
    } else {
        let footer = if bytes[5] & 0x10u8 != 0 { 10int } else { 0int };
        let at = 10 + syncsafe_size(bytes) + footer;
        if flac_marker_at(bytes, at) { Some(at) } else { None }
    }
}

/// A 24-bit big-endian number.
pub open spec fn be24(bytes: Seq<u8>, at: int) -> int {
    bytes[at] * 65536 + bytes[at + 1] * 256 + bytes[at + 2]
}

/// A 32-bit big-endian number.
pub open spec fn be32(bytes: Seq<u8>, at: int) -> int {
    bytes[at] * 16777216 + bytes[at + 1] * 65536 + bytes[at + 2] * 256 + bytes[at + 3]
}

/// A 32-bit little-endian number.
pub open spec fn le32(bytes: Seq<u8>, at: int) -> int {
    bytes[at] + bytes[at + 1] * 256 + bytes[at + 2] * 65536 + bytes[at + 3] * 16777216
}

/// `s` without a leading `reference `.
pub open spec fn without_reference(s: Seq<char>) -> Seq<char> {
    let prefix = seq!['r', 'e', 'f', 'e', 'r', 'e', 'n', 'c', 'e', ' '];
    if s.len() >= prefix.len() && s.take(prefix.len() as int) == prefix {
        s.skip(prefix.len() as int)
    } else {
        s
    }
}

/// The encoder named by a Vorbis comment block: its vendor string, UTF-8,
/// trimmed, without a leading `reference `; nothing when that is empty or the
/// block is malformed.
pub open spec fn comment_vendor(block: Seq<u8>) -> Option<Seq<char>> {
    if block.len() < 4 {
        None
    } else {
        let length = le32(block, 0);
        if 4 + length > block.len() {
            None
        } else {
            let raw = block.subrange(4, 4 + length);
            if !valid_utf8(raw) {
                None
            } else {
                let vendor = without_reference(trim(decode_utf8(raw)));
                if vendor.len() == 0 { None } else { Some(vendor) }
            }
        }
    }
}

/// The vendor found by walking the FLAC metadata blocks from `at`: each block has
/// a four-byte header (last-block flag and type in the first byte, length in the
/// next three); the first Vorbis comment block (type 4) gives the vendor, and the
/// walk ends without one at the last block or at bytes that end too soon.
pub open spec fn vendor_from_blocks(bytes: Seq<u8>, at: int) -> Option<Seq<char>>
    decreases bytes.len() - at,
{
    if at < 0 || at + 4 > bytes.len() {
        None
    } else {
        let start = at + 4;
        let length = be24(bytes, at + 1);
        if start + length > bytes.len() {
            None
        } else if bytes[at] & 0x7fu8 == 4 {
            comment_vendor(bytes.subrange(start, start + length))
        } else if bytes[at] & 0x80u8 != 0 {
            None
        } else {
            vendor_from_blocks(bytes, start + length)
        }
    }
}

/// The vendor of a Vorbis comment block is the text its first field holds (a
/// little-endian length, then that many bytes of UTF-8), trimmed: as it is, or
/// without a leading `reference ` when it has one; never empty, and nothing when
/// the field does not fit or is not UTF-8.
pub proof fn law_the_vendor_is_the_comments_first_text(block: Seq<u8>)
    ensures
        block.len() >= 4 ==> ({
            let length = block[0] + block[1] * 256 + block[2] * 65536 + block[3] * 16777216;
            let raw = block.subrange(4, 4 + length);
            let text = trim(decode_utf8(raw));
            let reference = seq!['r', 'e', 'f', 'e', 'r', 'e', 'n', 'c', 'e', ' '];
            &&& 4 + length > block.len() ==> comment_vendor(block) is None
            &&& 4 + length <= block.len() && !valid_utf8(raw) ==> comment_vendor(block) is None
            &&& comment_vendor(block) matches Some(vendor) ==> vendor.len() > 0 && (text == vendor
                || text == reference + vendor)
            &&& 4 + length <= block.len() && valid_utf8(raw) && text.len() > 0 && !(text.len() >= 10
                && text.take(10) == reference) ==> comment_vendor(block) == Some(text)
        }),
        block.len() < 4 ==> comment_vendor(block) is None,
{
    if block.len() >= 4 {
        let length = block[0] + block[1] * 256 + block[2] * 65536 + block[3] * 16777216;
        let raw = block.subrange(4, 4 + length);
        let text = trim(decode_utf8(raw));
        let reference = seq!['r', 'e', 'f', 'e', 'r', 'e', 'n', 'c', 'e', ' '];
        if text.len() >= 10 && text.take(10) == reference {
            assert(text =~= reference + text.skip(10));
        }
    }
}

proof fn lemma_block_header_bits(b: u8)
    ensures
        (b & 0x7fu8) == b % 128,
        ((b & 0x80u8) != 0) == (b >= 128),
{
    assert((b & 0x7fu8) == b % 128) by (bit_vector);
    assert(((b & 0x80u8) != 0) == (b >= 128)) by (bit_vector);
}

/// How the walk over FLAC metadata blocks treats the block whose four-byte
/// header is at `at` (there is none when the header does not fit: no vendor; the
/// first byte holds the last-block flag, 128, and the
/// type below it; the next three the length, most significant first): a block
/// that does not fit in the bytes ends the walk without a vendor; a Vorbis
/// comment block (type 4) gives the vendor of its payload; another block ends the
/// walk when it is the last, and is passed over otherwise, so that the walk goes
/// on with the block right after it.
pub proof fn law_the_block_walk_passes_over_other_blocks(bytes: Seq<u8>, at: int)
    ensures
        at < 0 || at + 4 > bytes.len() ==> vendor_from_blocks(bytes, at) is None,
        0 <= at && at + 4 <= bytes.len() ==> ({
            let length = bytes[at + 1] * 65536 + bytes[at + 2] * 256 + bytes[at + 3];
            let next = at + 4 + length;
            &&& next > bytes.len() ==> vendor_from_blocks(bytes, at) is None
            &&& next <= bytes.len() && bytes[at] % 128 == 4 ==> vendor_from_blocks(bytes, at)
                == comment_vendor(bytes.subrange(at + 4, next))
            &&& next <= bytes.len() && bytes[at] % 128 != 4 && bytes[at] >= 128 ==> vendor_from_blocks(
                bytes,
                at,
            ) is None
            &&& next <= bytes.len() && bytes[at] % 128 != 4 && bytes[at] < 128 ==> vendor_from_blocks(
                bytes,
                at,
            ) == vendor_from_blocks(bytes, next)
        }),
{
    if 0 <= at && at + 4 <= bytes.len() {
        lemma_block_header_bits(bytes[at]);
    }
}

/// Where a file begins with the FLAC marker, its encoder is what the block walk
/// finds from the first metadata block, right after the marker.
pub proof fn law_the_walk_starts_after_the_marker(bytes: Seq<u8>)
    requires
        bytes.len() >= 4,
        bytes[0] == 0x66u8,
        bytes[1] == 0x4cu8,
        bytes[2] == 0x61u8,
        bytes[3] == 0x43u8,
    ensures
        flac_vendor(bytes) == vendor_from_blocks(bytes, 4),
{
}

/// The encoder that a FLAC file names in its Vorbis comment.
pub open spec fn flac_vendor(bytes: Seq<u8>) -> Option<Seq<char>> {
    match flac_marker(bytes) {
        Some(at) => vendor_from_blocks(bytes, at + 4),
        None => None,
    }
}

/// std `str::from_utf8`: the text that valid UTF-8 bytes encode.
#[verifier::external_body]
fn utf8_text(bytes: &[u8]) -> (r: Option<String>)
    ensures
        match r {
            Some(text) => valid_utf8(bytes@) && text@ == decode_utf8(bytes@),
            None => !valid_utf8(bytes@),
        },
{
    std::str::from_utf8(bytes).ok().map(|text| text.to_owned())
}

/// Where the FLAC stream begins (see [`flac_marker`]).
pub fn flac_marker_offset(bytes: &[u8]) -> (r: Option<usize>)
    ensures
        match flac_marker(bytes@) {
            Some(at) => r == Some(at as usize),
            None => r is None,
        },
{
    let n = bytes.len();
    if n >= 4 && bytes[0] == 0x66 && bytes[1] == 0x4c && bytes[2] == 0x61 && bytes[3] == 0x43 {
        return Some(0);
    }
    if n < 10 || bytes[0] != 0x49 || bytes[1] != 0x44 || bytes[2] != 0x33 {
        return None;
    }
    if bytes[6] > 0x7f || bytes[7] > 0x7f || bytes[8] > 0x7f || bytes[9] > 0x7f {
        return None;
    }
    let size: usize = (bytes[6] as usize) * 2097152 + (bytes[7] as usize) * 16384 + (bytes[8] as usize)
        * 128 + bytes[9] as usize;
    let footer: usize = if bytes[5] & 0x10 != 0 { 10 } else { 0 };
    let at: usize = 10 + size + footer;
    if at <= n && n - at >= 4 && bytes[at] == 0x66 && bytes[at + 1] == 0x4c && bytes[at + 2] == 0x61
        && bytes[at + 3] == 0x43 {
        Some(at)
    } else {
        None
    }
}

fn strip_reference(s: Vec<char>) -> (r: Vec<char>)
    ensures
        r@ == without_reference(s@),
{
    let prefix = vec!['r', 'e', 'f', 'e', 'r', 'e', 'n', 'c', 'e', ' '];
    assert(prefix@ =~= seq!['r', 'e', 'f', 'e', 'r', 'e', 'n', 'c', 'e', ' ']);
    if s.len() < prefix.len() {
        return s;
    }
    let mut i: usize = 0;
    while i < prefix.len()
        invariant
            i <= prefix@.len(),
            prefix@.len() <= s@.len(),
            prefix@ == seq!['r', 'e', 'f', 'e', 'r', 'e', 'n', 'c', 'e', ' '],
            forall|j: int| 0 <= j < i ==> s@[j] == prefix@[j],
        decreases prefix@.len() - i,
    {
        if s[i] != prefix[i] {
            assert(s@.take(prefix@.len() as int)[i as int] != prefix@[i as int]);
            return s;
        }
        i = i + 1;
    }
    assert(s@.take(prefix@.len() as int) =~= prefix@);
    let mut out: Vec<char> = Vec::new();
    let mut k: usize = prefix.len();
    while k < s.len()
        invariant
            prefix@.len() <= k <= s@.len(),
            prefix@.len() == 10,
            out@ == s@.subrange(10, k as int),
        decreases s@.len() - k,
    {
        out.push(s[k]);
        k = k + 1;
        assert(out@ =~= s@.subrange(10, k as int));
    }
    assert(out@ =~= s@.skip(10));
    out
}

fn subrange_bytes(bytes: &[u8], from: usize, to: usize) -> (r: Vec<u8>)
    requires
        from <= to <= bytes@.len(),
    ensures
        r@ == bytes@.subrange(from as int, to as int),
{
    let mut out: Vec<u8> = Vec::new();
    let mut k: usize = from;
    while k < to
        invariant
            from <= k <= to,
            to <= bytes@.len(),
            out@ == bytes@.subrange(from as int, k as int),
        decreases to - k,
    {
        out.push(bytes[k]);
        k = k + 1;
        assert(out@ =~= bytes@.subrange(from as int, k as int));
    }
    out
}

fn vendor_of_comment(block: &[u8]) -> (r: Option<String>)
    ensures
        match comment_vendor(block@) {
            Some(v) => r matches Some(s) && s@ == v,
            None => r is None,
        },
{
    let n = block.len();
    if n < 4 {
        return None;
    }
    let length: u64 = block[0] as u64 + (block[1] as u64) * 256 + (block[2] as u64) * 65536 + (block[3]
        as u64) * 16777216;
    if length > (n - 4) as u64 {
        return None;
    }
    let end: usize = 4 + length as usize;
    let raw = subrange_bytes(block, 4, end);
    let text = match utf8_text(&raw) {
        Some(text) => text,
        None => return None,
    };
    let chars = crate::text::chars_of(text.as_str());
    let vendor = strip_reference(trimmed(&chars));
    if vendor.len() == 0 {
        None
    } else {
        Some(string_of(&vendor))
    }
}

/// The encoder that a FLAC file names in its Vorbis comment (see [`flac_vendor`]).
pub fn flac_vendor_string(bytes: &[u8]) -> (r: Option<String>)
    ensures
        match flac_vendor(bytes@) {
            Some(v) => r matches Some(s) && s@ == v,
            None => r is None,
        },
{
    let marker = match flac_marker_offset(bytes) {
        Some(at) => at,
        None => return None,
    };
    let n = bytes.len();
    let mut at: usize = marker + 4;
    loop
        invariant
            n == bytes@.len(),
            at <= n,
            flac_vendor(bytes@) == vendor_from_blocks(bytes@, at as int),
        decreases n - at,
    {
        if n - at < 4 {
            return None;
        }
        let first = bytes[at];
        let length: usize = (bytes[at + 1] as usize) * 65536 + (bytes[at + 2] as usize) * 256
            + bytes[at + 3] as usize;
        let start = at + 4;
        if length > n - start {
            return None;
        }
        if first & 0x7f == 4 {
            let block = subrange_bytes(bytes, start, start + length);
            return vendor_of_comment(&block);
        }
        if first & 0x80 != 0 {
            return None;
        }
        at = start + length;
    }
}

/// The channel count in an MP4 audio sample entry: its big-endian 16-bit field at
/// offset 24, when the entry is long enough and the count is not zero.
pub open spec fn entry_channels(entry: Seq<u8>) -> Option<int> {
    if entry.len() < 26 {
        None
    } else {
        let count = entry[24] * 256 + entry[25];
        if count > 0 { Some(count) } else { None }
    }
}

/// The channel count of the sample description box whose header starts at `at`:
/// a four-byte size then the type `stsd`; its first sample entry begins 16 bytes
/// in and the box ends `size` bytes after `at`.
pub open spec fn stsd_channels(bytes: Seq<u8>, at: int) -> Option<int> {
    if at + 8 <= bytes.len() && bytes[at + 4] == 0x73u8 && bytes[at + 5] == 0x74u8 && bytes[at + 6]
        == 0x73u8 && bytes[at + 7] == 0x64u8 {
        let end = at + be32(bytes, at);
        if at + 16 <= end && end <= bytes.len() {
            entry_channels(bytes.subrange(at + 16, end))
        } else {
            None
        }
    } else {
        None
    }
}

/// The channel count of the first sample description box, from offset `at` on,
/// that yields one.
pub open spec fn channels_from(bytes: Seq<u8>, at: int) -> Option<int>
    decreases bytes.len() - at,
{
    if at < 0 || at + 8 > bytes.len() {
        None
    } else {
        match stsd_channels(bytes, at) {
            Some(count) => Some(count),
            None => channels_from(bytes, at + 1),
        }
    }
}

/// The channel count in an MP4 audio sample entry (see [`entry_channels`]).
pub fn m4a_sample_entry_channels(entry: &[u8]) -> (r: Option<usize>)
    ensures
        match entry_channels(entry@) {
            Some(count) => r == Some(count as usize),
            None => r is None,
        },
{
    if entry.len() < 26 {
        return None;
    }
    let count: usize = (entry[24] as usize) * 256 + entry[25] as usize;
    if count > 0 {
        Some(count)
    } else {
        None
    }
}

/// The channel count of an MP4 file's first usable sample description box (see
/// [`channels_from`]).
pub fn m4a_channels(bytes: &[u8]) -> (r: Option<usize>)
    ensures
        match channels_from(bytes@, 0) {
            Some(count) => r == Some(count as usize),
            None => r is None,
        },
{
    let n = bytes.len();
    if n < 8 {
        return None;
    }
    let mut at: usize = 0;
    while at <= n - 8
        invariant
            n == bytes@.len(),
            n >= 8,
            at <= n - 7,
            channels_from(bytes@, 0) == channels_from(bytes@, at as int),
        decreases n - at,
    {
        if bytes[at + 4] == 0x73 && bytes[at + 5] == 0x74 && bytes[at + 6] == 0x73 && bytes[at + 7] == 0x64 {
            let size: u64 = (bytes[at] as u64) * 16777216 + (bytes[at + 1] as u64) * 65536 + (bytes[at
                + 2] as u64) * 256 + bytes[at + 3] as u64;
            if size >= 16 && size <= (n - at) as u64 {
                let end: usize = at + size as usize;
                let entry = subrange_bytes(bytes, at + 16, end);
                let found = m4a_sample_entry_channels(&entry);
                if found.is_some() {
                    return found;
                }
            }
        }
        at = at + 1;
    }
    None
}


/// Which standard tag an encoder-related metadata tag is.
#[derive(Clone, Copy, Debug, PartialEq, Eq, Structural)]
pub enum EncoderTagKey {
    Encoder,
    EncoderSettings,
    Other,
}

/// A metadata tag of a stream, with the standard key it maps to and its value.
#[derive(Clone, Debug, PartialEq, Eq)]
pub struct MetadataTag {
    pub key: EncoderTagKey,
    pub value: String,
}

/// The value of the first tag with `key`.
pub open spec fn first_value(tags: Seq<MetadataTag>, key: EncoderTagKey) -> Option<Seq<char>>
    decreases tags.len(),
{
    if tags.len() == 0 {
        None
    } else if tags[0].key == key {
        Some(tags[0].value@)
    } else {
        first_value(tags.drop_first(), key)
    }
}

fn find_value(tags: &[MetadataTag], key: EncoderTagKey) -> (r: Option<String>)
    ensures
        match first_value(tags@, key) {
            Some(v) => r matches Some(s) && s@ == v,
            None => r is None,
        },
{
    let mut i: usize = 0;
    assert(tags@.skip(0) =~= tags@);
    while i < tags.len()
        invariant
            i <= tags@.len(),
            first_value(tags@, key) == first_value(tags@.skip(i as int), key),
        decreases tags@.len() - i,
    {
        assert(tags@.skip(i as int).drop_first() =~= tags@.skip(i + 1));
        assert(tags@.skip(i as int)[0] == tags@[i as int]);
        if tags[i].key == key {
            return Some(tags[i].value.clone());
        }
        i = i + 1;
    }
    assert(tags@.skip(i as int).len() == 0);
    None
}

/// The encoder that a stream's tags name: the first encoder tag, else the first
/// encoder-settings tag.
pub fn encoder_from_tags(tags: &[MetadataTag]) -> (r: Option<String>)
    ensures
        match first_value(tags@, EncoderTagKey::Encoder) {
            Some(v) => r matches Some(s) && s@ == v,
            None => match first_value(tags@, EncoderTagKey::EncoderSettings) {
                Some(v) => r matches Some(s) && s@ == v,
                None => r is None,
            },
        },
{
    match find_value(tags, EncoderTagKey::Encoder) {
        Some(value) => Some(value),
        None => find_value(tags, EncoderTagKey::EncoderSettings),
    }
}

/// Whether a path's extension is exactly `m4a` or `mp4`.
pub open spec fn is_m4a_path(path: Seq<char>) -> bool {
    path_extension(path) == Some(seq!['m', '4', 'a']) || path_extension(path) == Some(seq!['m', 'p', '4'])
}

/// Whether a path's extension is exactly `m4a` or `mp4`.
pub fn is_m4a(path: &str) -> (r: bool)
    ensures
        r == is_m4a_path(path@),
{
    match extension(path) {
        Some(ext) => {
            let m4a = vec!['m', '4', 'a'];
            let mp4 = vec!['m', 'p', '4'];
            assert(m4a@ =~= seq!['m', '4', 'a']);
            assert(mp4@ =~= seq!['m', 'p', '4']);
            crate::text::chars_equal(&ext, &m4a) || crate::text::chars_equal(&ext, &mp4)
        },
        None => false,
    }
}

/// The uppercase of an ASCII small letter; any other character unchanged.
pub open spec fn ascii_uppercase(c: char) -> char {
    if 'a' <= c && c <= 'z' {
        ((c as u32) - 32) as char
    } else {
        c
    }
}

/// The container shown for a file: its extension in ASCII capitals, or `未知`
/// (unknown) when it has none.
pub open spec fn container_of(path: Seq<char>) -> Seq<char> {
    match path_extension(path) {
        Some(ext) => ext.map_values(|c: char| ascii_uppercase(c)),
        None => seq!['未', '知'],
    }
}

/// The container shown for a file (see [`container_of`]).
pub fn container_name(path: &str) -> (r: String)
    ensures
        r@ == container_of(path@),
{
    let ext = match extension(path) {
        Some(ext) => ext,
        None => {
            let mut unknown = String::new();
            push_char(&mut unknown, '未');
            push_char(&mut unknown, '知');
            assert(unknown@ =~= seq!['未', '知']);
            return unknown;
        },
    };
    let mut out = String::new();
    let mut i: usize = 0;
    while i < ext.len()
        invariant
            i <= ext@.len(),
            out@ == ext@.take(i as int).map_values(|c: char| ascii_uppercase(c)),
        decreases ext@.len() - i,
    {
        let c = ext[i];
        let upper = if 'a' <= c && c <= 'z' { ((c as u32) - 32) as u8 as char } else { c };
        push_char(&mut out, upper);
        i = i + 1;
        assert(out@ =~= ext@.take(i as int).map_values(|c: char| ascii_uppercase(c)));
    }
    assert(ext@.take(i as int) =~= ext@);
    out
}

/// The text shown for a channel count: mono and stereo by name, others by number.
pub open spec fn channels_text(count: nat) -> Seq<char> {
    if count == 1 {
        seq!['单', '声', '道', ' ', '(', '1', ')']
    } else if count == 2 {
        seq!['立', '体', '声', ' ', '(', '2', ')']
    } else {
        decimal(count) + seq![' ', '声', '道']
    }
}

fn push_text(out: &mut String, text: &[char])
    ensures
        final(out)@ == old(out)@ + text@,
{
    let mut i: usize = 0;
    while i < text.len()
        invariant
            i <= text@.len(),
            out@ == old(out)@ + text@.take(i as int),
        decreases text@.len() - i,
    {
        push_char(out, text[i]);
        i = i + 1;
        assert(out@ =~= old(out)@ + text@.take(i as int));
    }
    assert(text@.take(i as int) =~= text@);
}

/// The text shown for a channel count (see [`channels_text`]).
pub fn format_channels(count: usize) -> (r: String)
    ensures
        r@ == channels_text(count as nat),
{
    let mut out = String::new();
    if count == 1 {
        push_text(&mut out, &['单', '声', '道', ' ', '(', '1', ')']);
    } else if count == 2 {
        push_text(&mut out, &['立', '体', '声', ' ', '(', '2', ')']);
    } else {
        push_decimal(&mut out, count as u64);
        push_text(&mut out, &[' ', '声', '道']);
    }
    assert(out@ =~= channels_text(count as nat));
    out
}

/// `a / d` rounded to the nearest whole number, ties to the even one.
pub open spec fn round_half_even(a: nat, d: nat) -> nat {
    let q = a / d;
    let r = a % d;
    if r * 2 > d || (r * 2 == d && q % 2 == 1) { q + 1 } else { q }
}

/// The spacing of 64-bit floats around `n`: doubling from `d` while `n` needs more
/// than 53 significant bits at that spacing, at most `steps` times.
pub open spec fn spacing_from(n: nat, d: nat, steps: nat) -> nat
    decreases steps,
{
    if steps == 0 || n < d * 9007199254740992 {
        d
    } else {
        spacing_from(n, d * 2, (steps - 1) as nat)
    }
}

/// The value that a `u64` takes as a 64-bit float: rounded to 53 significant bits,
/// ties to even.
pub open spec fn as_f64(n: nat) -> nat {
    let d = spacing_from(n, 1, 11);
    round_half_even(n, d) * d
}

/// A number of tenths as text with one decimal, such as `1.0`.
pub open spec fn one_decimal(tenths: nat) -> Seq<char> {
    decimal(tenths / 10) + seq!['.', digit_char((tenths % 10) as int)]
}

/// The text of a byte count in `unit`s with one decimal, as std formats a 64-bit
/// float with `{:.1}`: the count converted to a float, divided by the unit, and
/// rounded to tenths, ties to even.
pub open spec fn in_units(bytes: nat, unit: nat) -> Seq<char> {
    one_decimal(round_half_even(as_f64(bytes) * 10, unit))
}

/// The text shown for a file size: in MB from one mebibyte up, otherwise in KB.
pub open spec fn file_size_text(bytes: nat) -> Seq<char> {
    if bytes >= 1048576 {
        in_units(bytes, 1048576) + seq![' ', 'M', 'B']
    } else {
        in_units(bytes, 1024) + seq![' ', 'K', 'B']
    }
}

fn float_value(n: u64) -> (r: u128)
    ensures
        r == as_f64(n as nat),
        r <= 0x10000000000000000,
{
    let mut d: u128 = 1;
    let mut steps: u64 = 11;
    proof {
        reveal_with_fuel(pow_steps, 12);
    }
    while steps > 0 && n as u128 >= d * 9007199254740992
        invariant
            steps <= 11,
            1 <= d <= 2048,
            d * pow_steps(steps as nat) == 2048,
            spacing_from(n as nat, 1, 11) == spacing_from(n as nat, d as nat, steps as nat),
        decreases steps,
    {
        let ghost p = pow_steps((steps - 1) as nat);
        assert(pow_steps(steps as nat) == 2 * p);
        proof {
            lemma_pow_steps_positive((steps - 1) as nat);
        }
        assert(d * 2 * p == 2048 && d * 2 <= 2048) by (nonlinear_arith)
            requires
                d * (2 * p) == 2048,
                p >= 1,
        ;
        d = d * 2;
        steps = steps - 1;
    }
    let ghost m = pow_steps(steps as nat) * 9007199254740992;
    proof {
        lemma_pow_steps_positive(steps as nat);
    }
    assert(d * m == 0x10000000000000000) by (nonlinear_arith)
        requires
            d * pow_steps(steps as nat) == 2048,
            m == pow_steps(steps as nat) * 9007199254740992,
    ;
    let q = n as u128 / d;
    let r = n as u128 % d;
    assert(q * d <= n && q * d + r == n && r < d) by (nonlinear_arith)
        requires
            q == n as u128 / d,
            r == n as u128 % d,
            d >= 1,
    ;
    assert(q < m) by (nonlinear_arith)
        requires
            q * d <= n,
            n < 0x10000000000000000,
            d * m == 0x10000000000000000,
            d >= 1,
    ;
    assert((q + 1) * d <= 0x10000000000000000) by (nonlinear_arith)
        requires
            q < m,
            d * m == 0x10000000000000000,
            d >= 1,
    ;
    let rounded = if r * 2 > d || (r * 2 == d && q % 2 == 1) { q + 1 } else { q };
    assert(rounded * d <= 0x10000000000000000) by (nonlinear_arith)
        requires
            rounded <= q + 1,
            (q + 1) * d <= 0x10000000000000000,
            d >= 1,
    ;
    rounded * d
}

/// `2048 / 2^(11 - steps)` as a bound: the spacing after `11 - steps` doublings.
pub open spec fn pow_steps(steps: nat) -> nat
    decreases steps,
{
    if steps == 0 { 1 } else { 2 * pow_steps((steps - 1) as nat) }
}

proof fn lemma_pow_steps_positive(steps: nat)
    ensures
        pow_steps(steps) >= 1,
    decreases steps,
{
    if steps > 0 {
        lemma_pow_steps_positive((steps - 1) as nat);
    }
}

fn push_one_decimal(out: &mut String, tenths: u128)
    requires
        tenths / 10 <= u64::MAX,
    ensures
        final(out)@ == old(out)@ + one_decimal(tenths as nat),
{
    push_decimal(out, (tenths / 10) as u64);
    push_char(out, '.');
    push_char(out, digit_of((tenths % 10) as u64));
    assert(final(out)@ =~= old(out)@ + one_decimal(tenths as nat));
}

fn digit_of(d: u64) -> (c: char)
    requires
        d < 10,
    ensures
        c == digit_char(d as int),
{
    if d == 0 { '0' } else if d == 1 { '1' } else if d == 2 { '2' } else if d == 3 { '3' }
    else if d == 4 { '4' } else if d == 5 { '5' } else if d == 6 { '6' } else if d == 7 { '7' }
    else if d == 8 { '8' } else { '9' }
}

fn tenths_in(value: u128, unit: u128) -> (r: u128)
    requires
        1024 <= unit <= 1048576,
        value <= 0x10000000000000000,
    ensures
        r == round_half_even(value as nat * 10, unit as nat),
        r / 10 <= u64::MAX,
{
    let scaled = value * 10;
    let q = scaled / unit;
    let rem = scaled % unit;
    assert(q <= scaled / 1024 && rem < unit) by (nonlinear_arith)
        requires
            q == scaled / unit,
            rem == scaled % unit,
            unit >= 1024,
    ;
    let r = if rem * 2 > unit || (rem * 2 == unit && q % 2 == 1) { q + 1 } else { q };
    r
}

/// The text shown for a file size (see [`file_size_text`]).
pub fn format_file_size(bytes: u64) -> (r: String)
    ensures
        r@ == file_size_text(bytes as nat),
{
    let value = float_value(bytes);
    let mut out = String::new();
    if bytes >= 1048576 {
        let tenths = tenths_in(value, 1048576);
        push_one_decimal(&mut out, tenths);
        push_text(&mut out, &[' ', 'M', 'B']);
    } else {
        let tenths = tenths_in(value, 1024);
        push_one_decimal(&mut out, tenths);
        push_text(&mut out, &[' ', 'K', 'B']);
    }
    assert(out@ =~= file_size_text(bytes as nat));
    out
}

/// The stream facts known when only the file itself could be read: its container
/// and size.
pub fn fallback_metadata(path: &str, size: u64) -> (r: AudioMetadata)
    ensures
        r.container@ == container_of(path@),
        r.codec@ == Seq::<char>::empty(),
        r.duration is None,
        r.bitrate is None,
        r.sample_rate is None,
        r.channels is None,
        r.bits_per_sample is None,
        r.file_size matches Some(text) && text@ == file_size_text(size as nat),
{
    AudioMetadata {
        container: container_name(path),
        codec: String::new(),
        duration: None,
        bitrate: None,
        sample_rate: None,
        channels: None,
        bits_per_sample: None,
        file_size: Some(format_file_size(size)),
    }
}

/// A duration in whole seconds as minutes and two-digit seconds, such as `1:01`.
pub open spec fn minutes_seconds(total: nat) -> Seq<char> {
    decimal(total / 60) + seq![':', digit_char(((total % 60) / 10) as int), digit_char((total % 10) as int)]
}

/// A duration in whole seconds as minutes and two-digit seconds.
pub fn format_minutes_seconds(total: u64) -> (r: String)
    ensures
        r@ == minutes_seconds(total as nat),
{
    let mut out = String::new();
    push_decimal(&mut out, total / 60);
    push_char(&mut out, ':');
    push_char(&mut out, digit_of((total % 60) / 10));
    push_char(&mut out, digit_of(total % 10));
    assert(((total % 60) % 10) == total % 10) by (nonlinear_arith);
    assert(out@ =~= minutes_seconds(total as nat));
    out
}

/// The text of a sample rate, such as `44100 Hz`.
pub fn format_sample_rate(rate: u32) -> (r: String)
    ensures
        r@ == decimal(rate as nat) + seq![' ', 'H', 'z'],
{
    let mut out = String::new();
    push_decimal(&mut out, rate as u64);
    push_text(&mut out, &[' ', 'H', 'z']);
    out
}

/// The text of a sample depth, such as `16-bit`.
pub fn format_bit_depth(bits: u32) -> (r: String)
    ensures
        r@ == decimal(bits as nat) + seq!['-', 'b', 'i', 't'],
{
    let mut out = String::new();
    push_decimal(&mut out, bits as u64);
    push_text(&mut out, &['-', 'b', 'i', 't']);
    out
}

} // verus!
