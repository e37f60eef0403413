//! Client-side helpers: human-readable sizes, file-type icons, and the API
//! client's configuration.

use vstd::prelude::*;
use vstd::string::StringExecFns;
use crate::text::dec_string;
use crate::text::u64_to_dec_string;
use crate::text::append_dec;

verus! {

/// Whether `pat` is a suffix of `s`.
pub open spec fn seq_ends_with(s: Seq<char>, pat: Seq<char>) -> bool {
    pat.len() <= s.len() && s.skip(s.len() - pat.len()) == pat
}

/// Whether `pat` is a prefix of `s`.
pub open spec fn seq_starts_with(s: Seq<char>, pat: Seq<char>) -> bool {
    pat.len() <= s.len() && s.take(pat.len() as int) == pat
}

/// Whether `pat` occurs anywhere in `s`.
pub open spec fn seq_contains_sub(s: Seq<char>, pat: Seq<char>) -> bool {
    exists|i: int|
        0 <= i && i + pat.len() <= s.len() && (#[trigger] s.subrange(i, i + pat.len())) == pat
}

/// Whether `pat` is a suffix of `v`.
pub fn chars_end_with(v: &Vec<char>, pat: &Vec<char>) -> (r: bool)
    ensures
        r == seq_ends_with(v@, pat@),
{
    if pat.len() > v.len() {
        return false;
    }
    let n: usize = v.len();
    let off: usize = v.len() - pat.len();
    let mut i: usize = 0;
    while i < pat.len()
        invariant
            pat@.len() <= v@.len(),
            n == v@.len(),
            off == v@.len() - pat@.len(),
            i <= pat@.len(),
            forall|j: int| 0 <= j < i ==> v@[off + j] == pat@[j],
        decreases pat@.len() - i,
    {
        proof {
            assert(off + i < n);
        }
        if v[off + i] != pat[i] {
            proof {
                assert(v@.skip(v@.len() - pat@.len())[i as int] == v@[off + i]);
            }
            return false;
        }
        i += 1;
    }
    proof {
        assert(v@.skip(v@.len() - pat@.len()) =~= pat@);
    }
    true
}

/// Whether `pat` is a prefix of `v`.
pub fn chars_start_with(v: &Vec<char>, pat: &Vec<char>) -> (r: bool)
    ensures
        r == seq_starts_with(v@, pat@),
{
    if pat.len() > v.len() {
        return false;
    }
    let mut i: usize = 0;
    while i < pat.len()
        invariant
            pat@.len() <= v@.len(),
            i <= pat@.len(),
            forall|j: int| 0 <= j < i ==> v@[j] == pat@[j],
        decreases pat@.len() - i,
    {
        if v[i] != pat[i] {
            proof {
                assert(v@.take(pat@.len() as int)[i as int] == v@[i as int]);
            }
            return false;
        }
        i += 1;
    }
    proof {
        assert(v@.take(pat@.len() as int) =~= pat@);
    }
    true
}

/// Whether `pat` occurs anywhere in `v`.
pub fn chars_contain(v: &Vec<char>, pat: &Vec<char>) -> (r: bool)
    ensures
        r == seq_contains_sub(v@, pat@),
{
    if pat.len() > v.len() {
        proof {
            if seq_contains_sub(v@, pat@) {
                let i = choose|i: int|
                    0 <= i && i + pat@.len() <= v@.len() && (#[trigger] v@.subrange(
                        i,
                        i + pat@.len(),
                    )) == pat@;
            }
        }
        return false;
    }
    if pat.len() == 0 {
        proof {
            assert(v@.subrange(0, 0 + pat@.len() as int) =~= pat@);
        }
        return true;
    }
    let n: usize = v.len();
    let last: usize = v.len() - pat.len();
    let mut start: usize = 0;
    while start <= last
        invariant
            1 <= pat@.len() <= v@.len(),
            n == v@.len(),
            last == v@.len() - pat@.len(),
            start <= last + 1,
            forall|i: int|
                0 <= i < start ==> (#[trigger] v@.subrange(i, i + pat@.len())) != pat@,
        decreases last + 1 - start,
    {
        let mut i: usize = 0;
        let mut matches = true;
        while i < pat.len() && matches
            invariant
                pat@.len() <= v@.len(),
                n == v@.len(),
                start + pat@.len() <= v@.len(),
                i <= pat@.len(),
                matches ==> forall|j: int| 0 <= j < i ==> v@[start + j] == pat@[j],
                !matches ==> v@.subrange(start as int, start + pat@.len()) != pat@,
            decreases pat@.len() - i + (if matches {
                1int
            } else {
                0int
            }),
        {
            proof {
                assert(start + i < n);
            }
            if v[start + i] != pat[i] {
                proof {
                    assert(v@.subrange(start as int, start + pat@.len())[i as int] == v@[start
                        + i]);
                }
                matches = false;
            } else {
                i += 1;
            }
        }
        if matches {
            proof {
                assert(v@.subrange(start as int, start + pat@.len()) =~= pat@);
            }
            return true;
        }
        proof {
            assert(start <= last);
            assert(last < n);
        }
        start += 1;
    }
    proof {
        if seq_contains_sub(v@, pat@) {
            let i = choose|i: int|
                0 <= i && i + pat@.len() <= v@.len() && (#[trigger] v@.subrange(
                    i,
                    i + pat@.len(),
                )) == pat@;
            assert(i <= last);
            assert(i < start);
        }
    }
    false
}

/// What `str::to_lowercase` returns: a function of the characters alone.
pub uninterp spec fn lower_of(s: Seq<char>) -> Seq<char>;

/// Relies on `str::to_lowercase`: the Unicode-lowercased string, a function
/// of the input characters alone.
#[verifier::external_body]
pub fn to_lowercase_str(s: &str) -> (r: String)
    ensures
        r@ == lower_of(s@),
{
    s.to_lowercase()
}

/// Relies on `str::chars`: the characters of the string, in order (exactly
/// the string's view).
#[verifier::external_body]
pub fn chars_of(s: &str) -> (r: Vec<char>)
    ensures
        r@ == s@,
{
    s.chars().collect()
}

/// The icon chosen for a lowercased filename and MIME type: MIME class
/// first when one is known, filename extension otherwise.
pub open spec fn spec_file_icon(name: Seq<char>, mime: Seq<char>) -> Seq<char> {
    if mime.len() > 0 && seq_starts_with(mime, "image/"@) {
        "\u{1F5BC}\u{FE0F}"@
    } else if mime.len() > 0 && seq_starts_with(mime, "video/"@) {
        "\u{1F3A5}"@
    } else if mime.len() > 0 && seq_starts_with(mime, "audio/"@) {
        "\u{1F3B5}"@
    } else if mime.len() > 0 && seq_contains_sub(mime, "pdf"@) {
        "\u{1F4C4}"@
    } else if mime.len() > 0 && seq_contains_sub(mime, "text/"@) {
        "\u{1F4DD}"@
    } else if seq_ends_with(name, ".pdf"@) {
        "\u{1F4C4}"@
    } else if seq_ends_with(name, ".txt"@) || seq_ends_with(name, ".md"@) {
        "\u{1F4DD}"@
    } else if seq_ends_with(name, ".zip"@) || seq_ends_with(name, ".rar"@) || seq_ends_with(
        name,
        ".7z"@,
    ) {
        "\u{1F4E6}"@
    } else if seq_ends_with(name, ".jpg"@) || seq_ends_with(name, ".jpeg"@) || seq_ends_with(
        name,
        ".png"@,
    ) || seq_ends_with(name, ".gif"@) || seq_ends_with(name, ".webp"@) || seq_ends_with(
        name,
        ".svg"@,
    ) {
        "\u{1F5BC}\u{FE0F}"@
    } else if seq_ends_with(name, ".mp4"@) || seq_ends_with(name, ".avi"@) || seq_ends_with(
        name,
        ".mov"@,
    ) || seq_ends_with(name, ".mkv"@) || seq_ends_with(name, ".webm"@) {
        "\u{1F3A5}"@
    } else if seq_ends_with(name, ".mp3"@) || seq_ends_with(name, ".wav"@) || seq_ends_with(
        name,
        ".flac"@,
    ) || seq_ends_with(name, ".ogg"@) {
        "\u{1F3B5}"@
    } else {
        "\u{1F4C1}"@
    }
}

/// Picks a display icon for a file from its name and optional MIME type,
/// case-insensitively: the MIME class decides when one is known, the
/// filename extension otherwise.
pub fn get_file_icon(filename: &str, mime_type: Option<&str>) -> (r: &'static str)
    ensures
        r@ == spec_file_icon(
            lower_of(filename@),
            (match mime_type {
                None => Seq::<char>::empty(),
                Some(m) => lower_of(m@),
            }),
    ),
{
    let name_s = to_lowercase_str(filename);
    let name = chars_of(name_s.as_str());
    let mime_s = match mime_type {
        None => String::new(),
        Some(m) => to_lowercase_str(m),
    };
    let mime = chars_of(mime_s.as_str());
    if mime.len() > 0 && chars_start_with(&mime, &chars_of("image/")) {
        "\u{1F5BC}\u{FE0F}"
    } else if mime.len() > 0 && chars_start_with(&mime, &chars_of("video/")) {
        "\u{1F3A5}"
    } else if mime.len() > 0 && chars_start_with(&mime, &chars_of("audio/")) {
        "\u{1F3B5}"
    } else if mime.len() > 0 && chars_contain(&mime, &chars_of("pdf")) {
        "\u{1F4C4}"
    } else if mime.len() > 0 && chars_contain(&mime, &chars_of("text/")) {
        "\u{1F4DD}"
    } else if chars_end_with(&name, &chars_of(".pdf")) {
        "\u{1F4C4}"
    } else if chars_end_with(&name, &chars_of(".txt")) || chars_end_with(&name, &chars_of(".md")) {
        "\u{1F4DD}"
    } else if chars_end_with(&name, &chars_of(".zip")) || chars_end_with(&name, &chars_of(".rar"))
        || chars_end_with(&name, &chars_of(".7z")) {
        "\u{1F4E6}"
    } else if chars_end_with(&name, &chars_of(".jpg")) || chars_end_with(&name, &chars_of(".jpeg"))
        || chars_end_with(&name, &chars_of(".png")) || chars_end_with(&name, &chars_of(".gif"))
        || chars_end_with(&name, &chars_of(".webp")) || chars_end_with(&name, &chars_of(".svg")) {
        "\u{1F5BC}\u{FE0F}"
    } else if chars_end_with(&name, &chars_of(".mp4")) || chars_end_with(&name, &chars_of(".avi"))
        || chars_end_with(&name, &chars_of(".mov")) || chars_end_with(&name, &chars_of(".mkv"))
        || chars_end_with(&name, &chars_of(".webm")) {
        "\u{1F3A5}"
    } else if chars_end_with(&name, &chars_of(".mp3")) || chars_end_with(&name, &chars_of(".wav"))
        || chars_end_with(&name, &chars_of(".flac")) || chars_end_with(&name, &chars_of(".ogg")) {
        "\u{1F3B5}"
    } else {
        "\u{1F4C1}"
    }
}

/// The unit a byte count is displayed in: the largest power of 1024 (up to
/// tebibytes) that fits.
pub open spec fn spec_size_unit(bytes: int) -> int {
    if bytes < 1024 {
        0
    } else if bytes < 1048576 {
        1
    } else if bytes < 1073741824 {
        2
    } else if bytes < 1099511627776 {
        3
    } else {
        4
    }
}

/// `1024^u` for the display units.
pub open spec fn spec_unit_divisor(u: int) -> int {
    if u == 1 {
        1024
    } else if u == 2 {
        1048576
    } else if u == 3 {
        1073741824
    } else {
        1099511627776
    }
}

/// The unit suffix, with its leading space.
pub open spec fn spec_unit_chars(u: int) -> Seq<char> {
    if u == 0 {
        " B"@
    } else if u == 1 {
        " KB"@
    } else if u == 2 {
        " MB"@
    } else if u == 3 {
        " GB"@
    } else {
        " TB"@
    }
}

/// `num / den` rounded to the nearest integer, ties to even.
pub open spec fn spec_round_half_even(num: int, den: int) -> int {
    if 2 * (num % den) > den {
        num / den + 1
    } else if 2 * (num % den) < den {
        num / den
    } else if (num / den) % 2 == 0 {
        num / den
    } else {
        num / den + 1
    }
}

/// The human-readable rendering of a byte count: the raw count in bytes
/// below 1 KiB, otherwise the count scaled to its unit with one decimal
/// digit, rounded to nearest with ties to even.
pub open spec fn spec_format_file_size(bytes: int) -> Seq<char> {
    let u = spec_size_unit(bytes);
    if u == 0 {
        dec_string(bytes) + " B"@
    } else {
        let tenths = spec_round_half_even(bytes * 10, spec_unit_divisor(u));
        dec_string(tenths / 10) + "."@ + dec_string(tenths % 10) + spec_unit_chars(u)
    }
}

/// Renders a byte count for humans: `512` becomes `512 B`, `1536` becomes
/// `1.5 KB`, and so on up to terabytes.
pub fn format_file_size(bytes: usize) -> (r: String)
    ensures
        r@ == spec_format_file_size(bytes as int),
{
    let b: u64 = bytes as u64;
    if b < 1024 {
        let mut out = u64_to_dec_string(b);
        out.append(" B");
        proof {
            assert(out@ =~= spec_format_file_size(bytes as int));
        }
        return out;
    }
    let den: u64 = if b < 1048576 {
        1024
    } else if b < 1073741824 {
        1048576
    } else if b < 1099511627776 {
        1073741824
    } else {
        1099511627776
    };
    proof {
        assert(den == spec_unit_divisor(spec_size_unit(bytes as int)));
    }
    let num: u128 = (b as u128) * 10;
    let q128: u128 = num / (den as u128);
    let rem128: u128 = num % (den as u128);
    proof {
        let n = bytes as int * 10;
        let d = den as int;
        vstd::arithmetic::div_mod::lemma_fundamental_div_mod(n, d);
        vstd::arithmetic::div_mod::lemma_mod_bound(n, d);
        vstd::arithmetic::div_mod::lemma_div_pos_is_pos(n, d);
        vstd::arithmetic::div_mod::lemma_div_is_ordered_by_denominator(n, 1024, d);
        vstd::arithmetic::div_mod::lemma_div_is_ordered(n, 0xffffffffffffffffu64 * 10, 1024);
        assert(n / d <= (0xffffffffffffffffu64 * 10) / 1024);
    }
    let q: u64 = q128 as u64;
    let rem: u64 = rem128 as u64;
    let tenths: u64 = if 2 * (rem as u128) > den as u128 {
        q + 1
    } else if 2 * (rem as u128) < den as u128 {
        q
    } else if q % 2 == 0 {
        q
    } else {
        q + 1
    };
    proof {
        assert(tenths == spec_round_half_even(bytes as int * 10, den as int));
    }
    let mut out = u64_to_dec_string(tenths / 10);
    out.append(".");
    append_dec(&mut out, tenths % 10);
    let unit: &'static str = if b < 1048576 {
        " KB"
    } else if b < 1073741824 {
        " MB"
    } else if b < 1099511627776 {
        " GB"
    } else {
        " TB"
    };
    proof {
        assert(unit@ == spec_unit_chars(spec_size_unit(bytes as int)));
    }
    out.append(unit);
    proof {
        assert(out@ =~= spec_format_file_size(bytes as int));
    }
    out
}


/// A failure of the API client, as surfaced to the GUI layer.
#[derive(Debug, Clone, PartialEq, Eq)]
pub enum ApiError {
    /// The request never completed.
    Network(String),
    /// The response could not be decoded.
    Parse(String),
    /// The server answered with an error status.
    Server {
        /// The HTTP status code.
        status: u16,
        /// The server's message body.
        message: String,
    },
}

/// The frontend's handle on the backend API.
pub struct ApiClient {
    /// The backend's base URL.
    pub base_url: String,
}

impl ApiClient {
    /// Creates a client against the default local backend address; callers
    /// with another deployment overwrite `base_url`.
    pub fn new() -> (r: ApiClient)
        ensures
            r.base_url@ == "http://localhost:3000"@,
    {
        ApiClient { base_url: String::from_str("http://localhost:3000") }
    }
}

} // verus!
