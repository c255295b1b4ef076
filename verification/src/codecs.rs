use vstd::prelude::*;

verus! {

/// The text that the legacy single-byte codepage decoder produces for a
/// byte sequence. The decoder's output depends on the input bytes alone,
/// so it is given a name here rather than a page-long table.
pub uninterp spec fn win1252_of(s: Seq<u8>) -> Seq<char>;

/// The bytes that inflating a deflate/zlib stream produces, or nothing
/// where the stream is rejected. Inflation is a function of the input
/// bytes alone.
pub uninterp spec fn inflate_of(s: Seq<u8>) -> Option<Seq<u8>>;

/// Relies on encoding_rs's `WINDOWS_1252.decode`: decodes the bytes of
/// `s` from `start` to `end` with the legacy codepage, after sniffing a
/// leading byte-order mark (a marked input decodes as the Unicode form
/// the mark names); either way a pure function of those bytes. The size
/// bound keeps the decoder's output-buffer size computation from
/// overflowing.
#[verifier::external_body]
pub(crate) fn decode_windows_1252(s: &[u8], start: usize, end: usize) -> (r: String)
    requires
        start <= end <= s@.len(),
        4 * (end - start) <= usize::MAX,
    ensures
        r@ == win1252_of(s@.subrange(start as int, end as int)),
        end == start ==> r@.len() == 0,
{
    let (text, _, _) = encoding_rs::WINDOWS_1252.decode(&s[start..end]);
    text.into_owned()
}

/// Relies on flate2's `ZlibDecoder` and `Read::read_to_end`: inflates the
/// bytes of `s` from `start` to `end`, a pure function of those bytes;
/// a rejected stream yields `None`.
#[verifier::external_body]
pub(crate) fn inflate(s: &[u8], start: usize, end: usize) -> (r: Option<Vec<u8>>)
    requires
        start <= end <= s@.len(),
    ensures
        match r {
            Some(v) => inflate_of(s@.subrange(start as int, end as int)) == Some(v@),
            None => inflate_of(s@.subrange(start as int, end as int)) is None,
        },
{
    let mut buf = Vec::new();
    let mut decoder = flate2::read::ZlibDecoder::new(&s[start..end]);
    match std::io::Read::read_to_end(&mut decoder, &mut buf) {
        Ok(_) => Some(buf),
        Err(_) => None,
    }
}

} // verus!
