//! Presentation helpers for listings: decimal rendering, human-readable
//! byte sizes, and calendar timestamps, all computed in verified integer
//! arithmetic and only then turned into `String`s.

use vstd::prelude::*;

use crate::entries::FileEntry;

verus! {

/// The decimal digits of `n`, most significant first.
pub open spec fn dec_digits(n: nat) -> Seq<u8>
    decreases n,
{
    if n < 10 {
        seq![(48 + n) as u8]
    } else {
        dec_digits(n / 10).push((48 + n % 10) as u8)
    }
}

/// `n` in two digits at least: one leading zero pads a single digit.
pub open spec fn two_digits(n: nat) -> Seq<u8> {
    if n < 10 {
        seq![48u8, (48 + n) as u8]
    } else {
        dec_digits(n)
    }
}

/// The characters of an ASCII byte string.
pub open spec fn ascii_chars(s: Seq<u8>) -> Seq<char> {
    s.map_values(|b: u8| b as char)
}

/// Whether every byte of `s` is ASCII.
pub open spec fn is_ascii_seq(s: Seq<u8>) -> bool {
    forall|k: int| 0 <= k < s.len() ==> #[trigger] s[k] < 128
}

/// Decimal digits are ASCII digits.
pub proof fn lemma_dec_digits_ascii(n: nat)
    ensures
        forall|k: int| 0 <= k < dec_digits(n).len() ==> 48 <= #[trigger] dec_digits(n)[k] <= 57,
    decreases n,
{
    if n >= 10 {
        lemma_dec_digits_ascii(n / 10);
        let ds = dec_digits(n);
        let prefix = dec_digits(n / 10);
        assert(ds == prefix.push((48 + n % 10) as u8));
        assert forall|k: int| 0 <= k < ds.len() implies 48 <= #[trigger] ds[k] <= 57 by {
            if k < prefix.len() {
                assert(ds[k] == prefix[k]);
            } else {
                assert(ds[k] == (48 + n % 10) as u8);
            }
        }
    }
}

/// Renders `n` in decimal.
pub fn u64_to_dec(n: u64) -> (r: Vec<u8>)
    ensures
        r@ == dec_digits(n as nat),
    decreases n,
{
    if n < 10 {
        let mut out: Vec<u8> = Vec::new();
        out.push(48 + n as u8);
        assert(out@ =~= dec_digits(n as nat));
        out
    } else {
        let mut out = u64_to_dec(n / 10);
        out.push(48 + (n % 10) as u8);
        assert(out@ =~= dec_digits(n as nat));
        out
    }
}

/// Renders `n` in two digits at least.
pub fn u64_to_two_digits(n: u64) -> (r: Vec<u8>)
    ensures
        r@ == two_digits(n as nat),
{
    if n < 10 {
        let mut out: Vec<u8> = Vec::new();
        out.push(48);
        out.push(48 + n as u8);
        assert(out@ =~= two_digits(n as nat));
        out
    } else {
        u64_to_dec(n)
    }
}

/// Relies on `String::from_utf8`: ASCII bytes are valid UTF-8 and decode to
/// one character per byte, the byte's own code point.
#[verifier::external_body]
fn ascii_to_string(v: Vec<u8>) -> (r: String)
    requires
        is_ascii_seq(v@),
    ensures
        r@ == ascii_chars(v@),
{
    match String::from_utf8(v) {
        Ok(s) => s,
        Err(_) => String::new(),
    }
}

/// Relies on `String::from_utf8_lossy`: bytes that are valid UTF-8 decode to
/// exactly their characters, and ASCII bytes (always valid UTF-8) decode to
/// one character per byte.  Of invalid bytes nothing is promised beyond a
/// string coming back.
#[verifier::external_body]
fn bytes_to_string_lossy(v: &[u8]) -> (r: String)
    ensures
        vstd::utf8::valid_utf8(v@) ==> r@ == vstd::utf8::decode_utf8(v@),
        is_ascii_seq(v@) ==> r@ == ascii_chars(v@),
{
    String::from_utf8_lossy(v).into_owned()
}

/// One kibibyte-scaled rendering: the whole part, a dot, and one truncated
/// tenth digit.
pub open spec fn scaled_bytes(b: nat, unit: nat) -> Seq<u8> {
    dec_digits(b / unit) + seq![46u8] + dec_digits((b % unit) * 10 / unit)
}

/// The human-readable size: bytes below one kibibyte are exact (`512 B`);
/// larger sizes are scaled to the largest unit reached, with one decimal
/// (`1.5 KB`, `2.0 MB`, ...), up to terabytes.
pub open spec fn format_bytes_bytes(b: nat) -> Seq<u8> {
    if b < 1024 {
        dec_digits(b) + seq![32u8, 66u8]
    } else if b < 1048576 {
        scaled_bytes(b, 1024) + seq![32u8, 75u8, 66u8]
    } else if b < 1073741824 {
        scaled_bytes(b, 1048576) + seq![32u8, 77u8, 66u8]
    } else if b < 1099511627776 {
        scaled_bytes(b, 1073741824) + seq![32u8, 71u8, 66u8]
    } else {
        scaled_bytes(b, 1099511627776) + seq![32u8, 84u8, 66u8]
    }
}

/// Renders the scaled whole-and-tenth part for `unit`.
fn scaled_bytes_exec(b: u64, unit: u64) -> (r: Vec<u8>)
    requires
        1024 <= unit <= 1099511627776,
    ensures
        r@ == scaled_bytes(b as nat, unit as nat),
        is_ascii_seq(r@),
{
    let whole = b / unit;
    let frac = (b % unit) * 10 / unit;
    let mut out = u64_to_dec(whole);
    proof {
        lemma_dec_digits_ascii(whole as nat);
    }
    out.push(46);
    let mut tail = u64_to_dec(frac);
    proof {
        lemma_dec_digits_ascii(frac as nat);
    }
    out.append(&mut tail);
    assert(out@ =~= scaled_bytes(b as nat, unit as nat));
    out
}

/// The size column of a listing row: `format_bytes_bytes`, as a string.
pub fn format_bytes(bytes: u64) -> (r: String)
    ensures
        r@ == ascii_chars(format_bytes_bytes(bytes as nat)),
{
    let mut out: Vec<u8>;
    if bytes < 1024 {
        out = u64_to_dec(bytes);
        proof {
            lemma_dec_digits_ascii(bytes as nat);
        }
        out.push(32);
        out.push(66);
    } else if bytes < 1048576 {
        out = scaled_bytes_exec(bytes, 1024);
        out.push(32);
        out.push(75);
        out.push(66);
    } else if bytes < 1073741824 {
        out = scaled_bytes_exec(bytes, 1048576);
        out.push(32);
        out.push(77);
        out.push(66);
    } else if bytes < 1099511627776 {
        out = scaled_bytes_exec(bytes, 1073741824);
        out.push(32);
        out.push(71);
        out.push(66);
    } else {
        out = scaled_bytes_exec(bytes, 1099511627776);
        out.push(32);
        out.push(84);
        out.push(66);
    }
    assert(out@ =~= format_bytes_bytes(bytes as nat));
    ascii_to_string(out)
}

/// `n` spaces.
pub open spec fn spaces(n: nat) -> Seq<u8>
    decreases n,
{
    if n == 0 {
        Seq::empty()
    } else {
        spaces((n - 1) as nat).push(32u8)
    }
}

/// The filename column of a listing row: names longer than `width` are cut
/// and end in an ellipsis; shorter names are padded with spaces to `width`.
pub open spec fn spec_display_name(name: Seq<u8>, width: nat) -> Seq<u8> {
    if name.len() > width {
        name.take(
            if width >= 3 {
                width - 3
            } else {
                0
            },
        ) + seq![46u8, 46u8, 46u8]
    } else {
        name + spaces((width - name.len()) as nat)
    }
}

/// The width left for the filename column of a listing of `list_width`
/// columns: the arrow, border, spacing, size and timestamp columns are
/// subtracted, and at least ten columns always remain.
pub fn filename_column_width(list_width: u16) -> (r: usize)
    ensures
        r == if (list_width as nat) >= 47 {
            (list_width - 37) as nat
        } else {
            10nat
        },
{
    let w = (list_width as usize).saturating_sub(37);
    if w < 10 {
        10
    } else {
        w
    }
}

/// Renders a filename into its column: cut with an ellipsis, or padded with
/// spaces, to exactly `width` bytes (more only when the ellipsis itself does
/// not fit).
pub fn display_name(name: &[u8], width: usize) -> (r: Vec<u8>)
    ensures
        r@ == spec_display_name(name@, width as nat),
{
    let mut out: Vec<u8> = Vec::new();
    if name.len() > width {
        let keep: usize = if width >= 3 {
            width - 3
        } else {
            0
        };
        let mut i: usize = 0;
        while i < keep
            invariant
                i <= keep,
                keep <= name@.len(),
                out@ == name@.subrange(0, i as int),
            decreases keep - i,
        {
            out.push(name[i]);
            assert(name@.subrange(0, i + 1 as int) =~= name@.subrange(0, i as int).push(
                name@[i as int],
            ));
            i = i + 1;
        }
        out.push(46);
        out.push(46);
        out.push(46);
        assert(name@.subrange(0, keep as int) =~= name@.take(keep as int));
        assert(out@ =~= spec_display_name(name@, width as nat));
    } else {
        let mut i: usize = 0;
        while i < name.len()
            invariant
                i <= name@.len(),
                out@ == name@.subrange(0, i as int),
            decreases name@.len() - i,
        {
            out.push(name[i]);
            assert(name@.subrange(0, i + 1 as int) =~= name@.subrange(0, i as int).push(
                name@[i as int],
            ));
            i = i + 1;
        }
        assert(out@ =~= name@);
        let mut k: usize = 0;
        let pad = width - name.len();
        while k < pad
            invariant
                k <= pad,
                out@ == name@ + spaces(k as nat),
            decreases pad - k,
        {
            out.push(32);
            k = k + 1;
        }
        assert(out@ =~= spec_display_name(name@, width as nat));
    }
    out
}

/// Right-aligns `s` in a field of `width` bytes (wider inputs stay as they
/// are).
pub fn pad_left(s: &[u8], width: usize) -> (r: Vec<u8>)
    ensures
        r@ == if s@.len() >= width as nat {
            s@
        } else {
            spaces((width - s@.len()) as nat) + s@
        },
{
    let mut out: Vec<u8> = Vec::new();
    let pad: usize = if s.len() >= width {
        0
    } else {
        width - s.len()
    };
    let mut k: usize = 0;
    while k < pad
        invariant
            k <= pad,
            out@ == spaces(k as nat),
        decreases pad - k,
    {
        out.push(32);
        k = k + 1;
    }
    let ghost pre = out@;
    let mut i: usize = 0;
    while i < s.len()
        invariant
            i <= s@.len(),
            out@ == pre + s@.subrange(0, i as int),
        decreases s@.len() - i,
    {
        out.push(s[i]);
        assert(pre + s@.subrange(0, i + 1 as int) =~= (pre + s@.subrange(0, i as int)).push(
            s@[i as int],
        ));
        i = i + 1;
    }
    assert(s@.subrange(0, s@.len() as int) =~= s@);
    if s.len() >= width {
        assert(out@ =~= s@);
    }
    out
}

/// Two-digit renderings are ASCII digits.
pub proof fn lemma_two_digits_ascii(n: nat)
    ensures
        forall|k: int| 0 <= k < two_digits(n).len() ==> 48 <= #[trigger] two_digits(n)[k] <= 57,
{
    lemma_dec_digits_ascii(n);
    if n < 10 {
        assert(two_digits(n)[0] == 48u8);
        assert(two_digits(n)[1] == (48 + n) as u8);
    }
}

/// The timestamp column of a listing row, `YYYY-MM-DD HH:MM:SS`: the civil
/// date reached `secs` seconds after the Unix epoch, and the time of day.
pub open spec fn timestamp_display(secs: nat) -> Seq<u8> {
    let days = secs / 86400;
    let rem = secs % 86400;
    let date = crate::time::date_of_days(days);
    dec_digits(date.0) + seq![45u8] + two_digits(date.1) + seq![45u8] + two_digits(date.2) + seq![
        32u8,
    ] + two_digits(rem / 3600) + seq![58u8] + two_digits((rem % 3600) / 60) + seq![58u8]
        + two_digits(rem % 60)
}

/// Renders a timestamp as `YYYY-MM-DD HH:MM:SS`.
pub fn format_timestamp(secs: u64) -> (r: Vec<u8>)
    ensures
        r@ == timestamp_display(secs as nat),
        is_ascii_seq(r@),
{
    let days = secs / 86400;
    let rem = secs % 86400;
    let date = crate::time::civil_from_days(days);
    let mut out = u64_to_dec(date.0);
    proof {
        lemma_dec_digits_ascii(date.0 as nat);
        lemma_two_digits_ascii(date.1 as nat);
        lemma_two_digits_ascii(date.2 as nat);
        lemma_two_digits_ascii((rem / 3600) as nat);
        lemma_two_digits_ascii(((rem % 3600) / 60) as nat);
        lemma_two_digits_ascii((rem % 60) as nat);
    }
    out.push(45);
    let mut part = u64_to_two_digits(date.1);
    out.append(&mut part);
    out.push(45);
    let mut part = u64_to_two_digits(date.2);
    out.append(&mut part);
    out.push(32);
    let mut part = u64_to_two_digits(rem / 3600);
    out.append(&mut part);
    out.push(58);
    let mut part = u64_to_two_digits((rem % 3600) / 60);
    out.append(&mut part);
    out.push(58);
    let mut part = u64_to_two_digits(rem % 60);
    out.append(&mut part);
    assert(out@ =~= timestamp_display(secs as nat));
    out
}

/// The three columns of one listing row, as the interactive browser and the
/// command-line client print them: the filename, the human-readable size,
/// and the timestamp as `YYYY-MM-DD HH:MM:SS`.
pub fn format_file_info(entry: &FileEntry) -> (r: (String, String, String))
    ensures
        is_ascii_seq(entry.name@) ==> r.0@ == ascii_chars(entry.name@),
        vstd::utf8::valid_utf8(entry.name@) ==> r.0@ == vstd::utf8::decode_utf8(entry.name@),
        r.1@ == ascii_chars(format_bytes_bytes(entry.size as nat)),
        r.2@ == ascii_chars(timestamp_display(entry.modified_at as nat)),
{
    let name = bytes_to_string_lossy(entry.name.as_slice());
    let size = format_bytes(entry.size);
    let stamp = format_timestamp(entry.modified_at);
    (name, size, ascii_to_string(stamp))
}

} // verus!
